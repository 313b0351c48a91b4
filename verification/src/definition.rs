//! Agent definitions: what an agent is called, which ports it has, and which
//! configuration entries it offers with their defaults.

use crate::float64::Float64;
use crate::text::to_string;
use crate::value::{AgentValue, ValueModel};
use vstd::prelude::*;

verus! {

broadcast use vstd::string::group_string_axioms;

/// The characters of an optional string.
pub open spec fn opt_text(o: Option<String>) -> Option<Seq<char>> {
    match o {
        Some(s) => Some(s@),
        None => None,
    }
}

/// A configuration entry: a default value, its type name, and how it shows.
#[derive(Debug)]
pub struct AgentConfigEntry {
    pub value: AgentValue,
    pub type_: Option<String>,
    pub title: Option<String>,
    pub description: Option<String>,
    /// Whether the entry is hidden from the user interface.
    pub hidden: bool,
}

pub struct ConfigEntryModel {
    pub value: ValueModel,
    pub type_: Option<Seq<char>>,
    pub title: Option<Seq<char>>,
    pub description: Option<Seq<char>>,
    pub hidden: bool,
}

impl View for AgentConfigEntry {
    type V = ConfigEntryModel;

    open spec fn view(&self) -> ConfigEntryModel {
        ConfigEntryModel {
            value: self.value@,
            type_: opt_text(self.type_),
            title: opt_text(self.title),
            description: opt_text(self.description),
            hidden: self.hidden,
        }
    }
}

/// The model of a fresh entry with a default value and a type name.
pub open spec fn fresh_entry(value: ValueModel, type_: Seq<char>) -> ConfigEntryModel {
    ConfigEntryModel { value, type_: Some(type_), title: None, description: None, hidden: false }
}

impl AgentConfigEntry {
    pub fn new(value: AgentValue, type_: &str) -> (r: Self)
        ensures
            r@ == fresh_entry(value@, type_@),
    {
        AgentConfigEntry { value, type_: Some(to_string(type_)), title: None, description: None, hidden: false }
    }

    pub fn with_title(self, title: &str) -> (r: Self)
        ensures
            r@ == (ConfigEntryModel { title: Some(title@), ..self@ }),
    {
        AgentConfigEntry { title: Some(to_string(title)), ..self }
    }

    pub fn with_description(self, description: &str) -> (r: Self)
        ensures
            r@ == (ConfigEntryModel { description: Some(description@), ..self@ }),
    {
        AgentConfigEntry { description: Some(to_string(description)), ..self }
    }

    pub fn with_hidden(self) -> (r: Self)
        ensures
            r@ == (ConfigEntryModel { hidden: true, ..self@ }),
    {
        AgentConfigEntry { hidden: true, ..self }
    }

    pub fn duplicate(&self) -> (r: Self)
        ensures
            r@ == self@,
    {
        AgentConfigEntry {
            value: self.value.duplicate(),
            type_: self.type_.clone(),
            title: self.title.clone(),
            description: self.description.clone(),
            hidden: self.hidden,
        }
    }
}

/// How a displayed value shows.
#[derive(Debug)]
pub struct AgentDisplayConfigEntry {
    pub type_: Option<String>,
    pub title: Option<String>,
    pub description: Option<String>,
    pub hide_title: bool,
}

pub struct DisplayEntryModel {
    pub type_: Option<Seq<char>>,
    pub title: Option<Seq<char>>,
    pub description: Option<Seq<char>>,
    pub hide_title: bool,
}

impl View for AgentDisplayConfigEntry {
    type V = DisplayEntryModel;

    open spec fn view(&self) -> DisplayEntryModel {
        DisplayEntryModel {
            type_: opt_text(self.type_),
            title: opt_text(self.title),
            description: opt_text(self.description),
            hide_title: self.hide_title,
        }
    }
}

/// The model of a fresh display entry with a type name.
pub open spec fn fresh_display_entry(type_: Seq<char>) -> DisplayEntryModel {
    DisplayEntryModel { type_: Some(type_), title: None, description: None, hide_title: false }
}

impl AgentDisplayConfigEntry {
    pub fn new(type_: &str) -> (r: Self)
        ensures
            r@ == fresh_display_entry(type_@),
    {
        AgentDisplayConfigEntry { type_: Some(to_string(type_)), title: None, description: None, hide_title: false }
    }

    pub fn with_hide_title(self) -> (r: Self)
        ensures
            r@ == (DisplayEntryModel { hide_title: true, ..self@ }),
    {
        AgentDisplayConfigEntry { hide_title: true, ..self }
    }

    pub fn with_title(self, title: &str) -> (r: Self)
        ensures
            r@ == (DisplayEntryModel { title: Some(title@), ..self@ }),
    {
        AgentDisplayConfigEntry { title: Some(to_string(title)), ..self }
    }

    pub fn with_description(self, description: &str) -> (r: Self)
        ensures
            r@ == (DisplayEntryModel { description: Some(description@), ..self@ }),
    {
        AgentDisplayConfigEntry { description: Some(to_string(description)), ..self }
    }

    pub fn duplicate(&self) -> (r: Self)
        ensures
            r@ == self@,
    {
        AgentDisplayConfigEntry {
            type_: self.type_.clone(),
            title: self.title.clone(),
            description: self.description.clone(),
            hide_title: self.hide_title,
        }
    }
}

impl Clone for AgentDisplayConfigEntry {
    fn clone(&self) -> (r: Self)
        ensures
            r@ == self@,
    {
        self.duplicate()
    }
}

impl Clone for AgentConfigEntry {
    fn clone(&self) -> (r: Self)
        ensures
            r@ == self@,
    {
        self.duplicate()
    }
}

/// What defines a kind of agent.
#[derive(Debug)]
pub struct AgentDefinition {
    pub kind: String,
    pub name: String,
    pub title: Option<String>,
    pub description: Option<String>,
    pub category: Option<String>,
    pub inputs: Option<Vec<String>>,
    pub outputs: Option<Vec<String>>,
    pub default_configs: Option<Vec<(String, AgentConfigEntry)>>,
    pub global_configs: Option<Vec<(String, AgentConfigEntry)>>,
    pub display_configs: Option<Vec<(String, AgentDisplayConfigEntry)>>,
    pub native_thread: bool,
}

pub struct DefinitionModel {
    pub kind: Seq<char>,
    pub name: Seq<char>,
    pub title: Option<Seq<char>>,
    pub description: Option<Seq<char>>,
    pub category: Option<Seq<char>>,
    pub inputs: Option<Seq<Seq<char>>>,
    pub outputs: Option<Seq<Seq<char>>>,
    pub default_configs: Option<Seq<(Seq<char>, ConfigEntryModel)>>,
    pub global_configs: Option<Seq<(Seq<char>, ConfigEntryModel)>>,
    pub display_configs: Option<Seq<(Seq<char>, DisplayEntryModel)>>,
    pub native_thread: bool,
}

pub open spec fn names_view(o: Option<Vec<String>>) -> Option<Seq<Seq<char>>> {
    match o {
        Some(v) => Some(v@.map_values(|s: String| s@)),
        None => None,
    }
}

pub open spec fn config_entries_view(o: Option<Vec<(String, AgentConfigEntry)>>) -> Option<Seq<(Seq<char>, ConfigEntryModel)>> {
    match o {
        Some(v) => Some(v@.map_values(|p: (String, AgentConfigEntry)| (p.0@, p.1@))),
        None => None,
    }
}

pub open spec fn display_entries_view(o: Option<Vec<(String, AgentDisplayConfigEntry)>>) -> Option<Seq<(Seq<char>, DisplayEntryModel)>> {
    match o {
        Some(v) => Some(v@.map_values(|p: (String, AgentDisplayConfigEntry)| (p.0@, p.1@))),
        None => None,
    }
}

impl View for AgentDefinition {
    type V = DefinitionModel;

    open spec fn view(&self) -> DefinitionModel {
        DefinitionModel {
            kind: self.kind@,
            name: self.name@,
            title: opt_text(self.title),
            description: opt_text(self.description),
            category: opt_text(self.category),
            inputs: names_view(self.inputs),
            outputs: names_view(self.outputs),
            default_configs: config_entries_view(self.default_configs),
            global_configs: config_entries_view(self.global_configs),
            display_configs: display_entries_view(self.display_configs),
            native_thread: self.native_thread,
        }
    }
}

/// A list with one more entry at its end; a missing list becomes a list of one.
pub open spec fn appended<E>(list: Option<Seq<(Seq<char>, E)>>, key: Seq<char>, e: E) -> Option<Seq<(Seq<char>, E)>> {
    match list {
        Some(s) => Some(s.push((key, e))),
        None => Some(seq![(key, e)]),
    }
}

/// Strings for string slices.
fn strings_of(items: Vec<&str>) -> (r: Vec<String>)
    ensures
        r@.map_values(|s: String| s@) == items@.map_values(|s: &str| s@),
{
    let mut out: Vec<String> = Vec::new();
    let mut i: usize = 0;
    while i < items.len()
        invariant
            i <= items@.len(),
            out@.len() == i,
            forall|t: int| 0 <= t < i ==> #[trigger] out@[t]@ == items@[t]@,
        decreases items.len() - i,
    {
        out.push(to_string(items[i]));
        i = i + 1;
    }
    assert(out@.map_values(|s: String| s@) =~= items@.map_values(|s: &str| s@));
    out
}

/// Owned keys for keyed entries.
fn keyed_entries<E>(items: Vec<(&str, E)>) -> (r: Vec<(String, E)>)
    ensures
        r@.len() == items@.len(),
        forall|t: int| 0 <= t < items@.len() ==> #[trigger] r@[t].0@ == items@[t].0@ && r@[t].1 == items@[t].1,
{
    let mut out: Vec<(String, E)> = Vec::new();
    let mut rest = items;
    let ghost initial = rest@;
    let mut taken: Vec<(String, E)> = Vec::new();
    // take from the back, then restore the order
    while rest.len() > 0
        invariant
            rest@ == initial.subrange(0, rest@.len() as int),
            taken@.len() + rest@.len() == initial.len(),
            forall|t: int| 0 <= t < taken@.len() ==> #[trigger] taken@[t].0@ == initial[initial.len() - 1 - t].0@ && taken@[t].1 == initial[initial.len() - 1 - t].1,
        decreases rest@.len(),
    {
        let ghost before_rest = rest@;
        let ghost before_taken = taken@;
        let (k, e) = rest.pop().unwrap();
        assert(k == before_rest.last().0 && e == before_rest.last().1);
        assert(before_rest.last() == initial[initial.len() - 1 - before_taken.len()]);
        taken.push((to_string(k), e));
        assert(rest@ =~= initial.subrange(0, rest@.len() as int));
        assert forall|t: int| 0 <= t < taken@.len() implies #[trigger] taken@[t].0@ == initial[initial.len() - 1 - t].0@ && taken@[t].1 == initial[initial.len() - 1 - t].1 by {
            if t < before_taken.len() {
                assert(taken@[t] == before_taken[t]);
            }
        }
    }
    let ghost n = initial.len();
    assert forall|t: int| 0 <= t < taken@.len() implies #[trigger] taken@[t].0@ == initial[n - 1 - t].0@ && taken@[t].1 == initial[n - 1 - t].1 by {
        assert(taken@[t].0@ == initial[initial.len() - 1 - t].0@);
    }
    while taken.len() > 0
        invariant
            out@.len() + taken@.len() == n,
            n == initial.len(),
            forall|t: int| 0 <= t < taken@.len() ==> #[trigger] taken@[t].0@ == initial[n - 1 - t].0@ && taken@[t].1 == initial[n - 1 - t].1,
            forall|t: int| 0 <= t < out@.len() ==> #[trigger] out@[t].0@ == initial[t].0@ && out@[t].1 == initial[t].1,
        decreases taken@.len(),
    {
        let ghost before_taken = taken@;
        let ghost before_out = out@;
        let entry = taken.pop().unwrap();
        assert(entry == before_taken.last());
        out.push(entry);
        assert forall|t: int| 0 <= t < out@.len() implies #[trigger] out@[t].0@ == initial[t].0@ && out@[t].1 == initial[t].1 by {
            if t < before_out.len() {
                assert(out@[t] == before_out[t]);
            } else {
                assert(before_taken.len() - 1 == n - 1 - t);
            }
        }
        assert forall|t: int| 0 <= t < taken@.len() implies #[trigger] taken@[t].0@ == initial[n - 1 - t].0@ && taken@[t].1 == initial[n - 1 - t].1 by {
            assert(taken@[t] == before_taken[t]);
        }
    }
    out
}

impl Default for AgentDefinition {
    fn default() -> (r: Self)
        ensures
            r@ == empty_definition(Seq::empty(), Seq::empty()),
    {
        proof {
            reveal_strlit("");
            assert(""@ =~= Seq::<char>::empty());
        }
        AgentDefinition::new("", "")
    }
}

/// The model of a definition with only a kind and a name.
pub open spec fn empty_definition(kind: Seq<char>, name: Seq<char>) -> DefinitionModel {
    DefinitionModel {
        kind,
        name,
        title: None,
        description: None,
        category: None,
        inputs: None,
        outputs: None,
        default_configs: None,
        global_configs: None,
        display_configs: None,
        native_thread: false,
    }
}

impl AgentDefinition {
    pub fn new(kind: &str, name: &str) -> (r: Self)
        ensures
            r@ == empty_definition(kind@, name@),
    {
        AgentDefinition {
            kind: to_string(kind),
            name: to_string(name),
            title: None,
            description: None,
            category: None,
            inputs: None,
            outputs: None,
            default_configs: None,
            global_configs: None,
            display_configs: None,
            native_thread: false,
        }
    }

    pub fn with_title(self, title: &str) -> (r: Self)
        ensures
            r@ == (DefinitionModel { title: Some(title@), ..self@ }),
    {
        AgentDefinition { title: Some(to_string(title)), ..self }
    }

    pub fn with_description(self, description: &str) -> (r: Self)
        ensures
            r@ == (DefinitionModel { description: Some(description@), ..self@ }),
    {
        AgentDefinition { description: Some(to_string(description)), ..self }
    }

    pub fn with_category(self, category: &str) -> (r: Self)
        ensures
            r@ == (DefinitionModel { category: Some(category@), ..self@ }),
    {
        AgentDefinition { category: Some(to_string(category)), ..self }
    }

    pub fn with_inputs(self, inputs: Vec<&str>) -> (r: Self)
        ensures
            r@ == (DefinitionModel { inputs: Some(inputs@.map_values(|s: &str| s@)), ..self@ }),
    {
        AgentDefinition { inputs: Some(strings_of(inputs)), ..self }
    }

    pub fn with_outputs(self, outputs: Vec<&str>) -> (r: Self)
        ensures
            r@ == (DefinitionModel { outputs: Some(outputs@.map_values(|s: &str| s@)), ..self@ }),
    {
        AgentDefinition { outputs: Some(strings_of(outputs)), ..self }
    }

    pub fn with_default_configs(self, configs: Vec<(&str, AgentConfigEntry)>) -> (r: Self)
        ensures
            r@ == (DefinitionModel {
                default_configs: Some(configs@.map_values(|p: (&str, AgentConfigEntry)| (p.0@, p.1@))),
                ..self@
            }),
    {
        let entries = keyed_entries(configs);
        let r = AgentDefinition { default_configs: Some(entries), ..self };
        assert(entries@.map_values(|p: (String, AgentConfigEntry)| (p.0@, p.1@)) =~= configs@.map_values(|p: (&str, AgentConfigEntry)| (p.0@, p.1@)));
        r
    }

    pub fn with_global_configs(self, configs: Vec<(&str, AgentConfigEntry)>) -> (r: Self)
        ensures
            r@ == (DefinitionModel {
                global_configs: Some(configs@.map_values(|p: (&str, AgentConfigEntry)| (p.0@, p.1@))),
                ..self@
            }),
    {
        let entries = keyed_entries(configs);
        let r = AgentDefinition { global_configs: Some(entries), ..self };
        assert(entries@.map_values(|p: (String, AgentConfigEntry)| (p.0@, p.1@)) =~= configs@.map_values(|p: (&str, AgentConfigEntry)| (p.0@, p.1@)));
        r
    }

    pub fn with_display_configs(self, configs: Vec<(&str, AgentDisplayConfigEntry)>) -> (r: Self)
        ensures
            r@ == (DefinitionModel {
                display_configs: Some(configs@.map_values(|p: (&str, AgentDisplayConfigEntry)| (p.0@, p.1@))),
                ..self@
            }),
    {
        let entries = keyed_entries(configs);
        let r = AgentDefinition { display_configs: Some(entries), ..self };
        assert(entries@.map_values(|p: (String, AgentDisplayConfigEntry)| (p.0@, p.1@)) =~= configs@.map_values(|p: (&str, AgentDisplayConfigEntry)| (p.0@, p.1@)));
        r
    }

    /// Marks the agent as one that runs on a thread of its own.
    pub fn use_native_thread(self) -> (r: Self)
        ensures
            r@ == (DefinitionModel { native_thread: true, ..self@ }),
    {
        AgentDefinition { native_thread: true, ..self }
    }

    /// Appends a default configuration entry.
    pub fn push_default_config_entry(self, key: String, entry: AgentConfigEntry) -> (r: Self)
        ensures
            r@ == (DefinitionModel { default_configs: appended(self@.default_configs, key@, entry@), ..self@ }),
    {
        let ghost kv = key@;
        let ghost ev = entry@;
        let mut list = match self.default_configs {
            Some(v) => v,
            None => Vec::new(),
        };
        let ghost before = list@;
        list.push((key, entry));
        let r = AgentDefinition { default_configs: Some(list), ..self };
        assert(list@.map_values(|p: (String, AgentConfigEntry)| (p.0@, p.1@)) =~= match config_entries_view(self.default_configs) {
            Some(s) => s.push((kv, ev)),
            None => seq![(kv, ev)],
        });
        r
    }

    /// Appends a global configuration entry.
    pub fn push_global_config_entry(self, key: String, entry: AgentConfigEntry) -> (r: Self)
        ensures
            r@ == (DefinitionModel { global_configs: appended(self@.global_configs, key@, entry@), ..self@ }),
    {
        let ghost kv = key@;
        let ghost ev = entry@;
        let mut list = match self.global_configs {
            Some(v) => v,
            None => Vec::new(),
        };
        list.push((key, entry));
        let r = AgentDefinition { global_configs: Some(list), ..self };
        assert(list@.map_values(|p: (String, AgentConfigEntry)| (p.0@, p.1@)) =~= match config_entries_view(self.global_configs) {
            Some(s) => s.push((kv, ev)),
            None => seq![(kv, ev)],
        });
        r
    }

    /// Appends a display configuration entry.
    pub fn push_display_config_entry(self, key: String, entry: AgentDisplayConfigEntry) -> (r: Self)
        ensures
            r@ == (DefinitionModel { display_configs: appended(self@.display_configs, key@, entry@), ..self@ }),
    {
        let ghost kv = key@;
        let ghost ev = entry@;
        let mut list = match self.display_configs {
            Some(v) => v,
            None => Vec::new(),
        };
        list.push((key, entry));
        let r = AgentDefinition { display_configs: Some(list), ..self };
        assert(list@.map_values(|p: (String, AgentDisplayConfigEntry)| (p.0@, p.1@)) =~= match display_entries_view(self.display_configs) {
            Some(s) => s.push((kv, ev)),
            None => seq![(kv, ev)],
        });
        r
    }

    /// Appends a default configuration entry of a type, with a default value.
    pub fn with_config_type(self, key: &str, default: AgentValue, type_: &str) -> (r: Self)
        ensures
            r@ == (DefinitionModel {
                default_configs: appended(self@.default_configs, key@, fresh_entry(default@, type_@)),
                ..self@
            }),
    {
        let entry = AgentConfigEntry::new(default, type_);
        self.push_default_config_entry(to_string(key), entry)
    }

    /// Appends a default configuration entry of a type, with a default value,
    /// as `f` makes it from the fresh entry.
    pub fn with_config_type_with<F: FnOnce(AgentConfigEntry) -> AgentConfigEntry>(
        self,
        key: &str,
        default: AgentValue,
        type_: &str,
        f: F,
    ) -> (r: Self)
        requires
            forall|e: AgentConfigEntry| call_requires(f, (e,)),
        ensures
            exists|e0: AgentConfigEntry, e: AgentConfigEntry|
                e0@ == fresh_entry(default@, type_@) && call_ensures(f, (e0,), e) && r@ == (DefinitionModel {
                    default_configs: appended(self@.default_configs, key@, e@),
                    ..self@
                }),
    {
        let entry = AgentConfigEntry::new(default, type_);
        let made = f(entry);
        self.push_default_config_entry(to_string(key), made)
    }

    /// Appends a global configuration entry of a type, with a default value.
    pub fn with_global_config_type(self, key: &str, default: AgentValue, type_: &str) -> (r: Self)
        ensures
            r@ == (DefinitionModel {
                global_configs: appended(self@.global_configs, key@, fresh_entry(default@, type_@)),
                ..self@
            }),
    {
        let entry = AgentConfigEntry::new(default, type_);
        self.push_global_config_entry(to_string(key), entry)
    }

    /// Appends a global configuration entry of a type, with a default value,
    /// as `f` makes it from the fresh entry.
    pub fn with_global_config_type_with<F: FnOnce(AgentConfigEntry) -> AgentConfigEntry>(
        self,
        key: &str,
        default: AgentValue,
        type_: &str,
        f: F,
    ) -> (r: Self)
        requires
            forall|e: AgentConfigEntry| call_requires(f, (e,)),
        ensures
            exists|e0: AgentConfigEntry, e: AgentConfigEntry|
                e0@ == fresh_entry(default@, type_@) && call_ensures(f, (e0,), e) && r@ == (DefinitionModel {
                    global_configs: appended(self@.global_configs, key@, e@),
                    ..self@
                }),
    {
        let entry = AgentConfigEntry::new(default, type_);
        let made = f(entry);
        self.push_global_config_entry(to_string(key), made)
    }

    /// Appends a display configuration entry of a type.
    pub fn with_display_config_type(self, key: &str, type_: &str) -> (r: Self)
        ensures
            r@ == (DefinitionModel {
                display_configs: appended(self@.display_configs, key@, fresh_display_entry(type_@)),
                ..self@
            }),
    {
        let entry = AgentDisplayConfigEntry::new(type_);
        self.push_display_config_entry(to_string(key), entry)
    }

    /// Appends a display configuration entry of a type, as `f` makes it from
    /// the fresh entry.
    pub fn with_display_config_type_with<F: FnOnce(AgentDisplayConfigEntry) -> AgentDisplayConfigEntry>(
        self,
        key: &str,
        type_: &str,
        f: F,
    ) -> (r: Self)
        requires
            forall|e: AgentDisplayConfigEntry| call_requires(f, (e,)),
        ensures
            exists|e0: AgentDisplayConfigEntry, e: AgentDisplayConfigEntry|
                e0@ == fresh_display_entry(type_@) && call_ensures(f, (e0,), e) && r@ == (DefinitionModel {
                    display_configs: appended(self@.display_configs, key@, e@),
                    ..self@
                }),
    {
        let entry = AgentDisplayConfigEntry::new(type_);
        let made = f(entry);
        self.push_display_config_entry(to_string(key), made)
    }

    pub fn with_unit_config(self, key: &str) -> (r: Self)
        ensures
            r@ == (DefinitionModel {
                default_configs: appended(self@.default_configs, key@, fresh_entry(ValueModel::Unit, "unit"@)),
                ..self@
            }),
    {
        self.with_config_type(key, AgentValue::unit(), "unit")
    }

    pub fn with_unit_config_with<F: FnOnce(AgentConfigEntry) -> AgentConfigEntry>(self, key: &str, f: F) -> (r: Self)
        requires
            forall|e: AgentConfigEntry| call_requires(f, (e,)),
        ensures
            exists|e0: AgentConfigEntry, e: AgentConfigEntry|
                e0@ == fresh_entry(ValueModel::Unit, "unit"@) && call_ensures(f, (e0,), e) && r@ == (DefinitionModel {
                    default_configs: appended(self@.default_configs, key@, e@),
                    ..self@
                }),
    {
        self.with_config_type_with(key, AgentValue::unit(), "unit", f)
    }

    pub fn with_boolean_config(self, key: &str, default: bool) -> (r: Self)
        ensures
            r@ == (DefinitionModel {
                default_configs: appended(self@.default_configs, key@, fresh_entry(ValueModel::Boolean(default), "boolean"@)),
                ..self@
            }),
    {
        self.with_config_type(key, AgentValue::boolean(default), "boolean")
    }

    pub fn with_boolean_config_with<F: FnOnce(AgentConfigEntry) -> AgentConfigEntry>(self, key: &str, default: bool, f: F) -> (r: Self)
        requires
            forall|e: AgentConfigEntry| call_requires(f, (e,)),
        ensures
            exists|e0: AgentConfigEntry, e: AgentConfigEntry|
                e0@ == fresh_entry(ValueModel::Boolean(default), "boolean"@) && call_ensures(f, (e0,), e) && r@ == (DefinitionModel {
                    default_configs: appended(self@.default_configs, key@, e@),
                    ..self@
                }),
    {
        self.with_config_type_with(key, AgentValue::boolean(default), "boolean", f)
    }

    pub fn with_integer_config(self, key: &str, default: i64) -> (r: Self)
        ensures
            r@ == (DefinitionModel {
                default_configs: appended(self@.default_configs, key@, fresh_entry(ValueModel::Integer(default), "integer"@)),
                ..self@
            }),
    {
        self.with_config_type(key, AgentValue::integer(default), "integer")
    }

    pub fn with_integer_config_with<F: FnOnce(AgentConfigEntry) -> AgentConfigEntry>(self, key: &str, default: i64, f: F) -> (r: Self)
        requires
            forall|e: AgentConfigEntry| call_requires(f, (e,)),
        ensures
            exists|e0: AgentConfigEntry, e: AgentConfigEntry|
                e0@ == fresh_entry(ValueModel::Integer(default), "integer"@) && call_ensures(f, (e0,), e) && r@ == (DefinitionModel {
                    default_configs: appended(self@.default_configs, key@, e@),
                    ..self@
                }),
    {
        self.with_config_type_with(key, AgentValue::integer(default), "integer", f)
    }

    pub fn with_number_config(self, key: &str, default: Float64) -> (r: Self)
        ensures
            r@ == (DefinitionModel {
                default_configs: appended(self@.default_configs, key@, fresh_entry(ValueModel::Number(default.bits), "number"@)),
                ..self@
            }),
    {
        self.with_config_type(key, AgentValue::number(default), "number")
    }

    pub fn with_number_config_with<F: FnOnce(AgentConfigEntry) -> AgentConfigEntry>(self, key: &str, default: Float64, f: F) -> (r: Self)
        requires
            forall|e: AgentConfigEntry| call_requires(f, (e,)),
        ensures
            exists|e0: AgentConfigEntry, e: AgentConfigEntry|
                e0@ == fresh_entry(ValueModel::Number(default.bits), "number"@) && call_ensures(f, (e0,), e) && r@ == (DefinitionModel {
                    default_configs: appended(self@.default_configs, key@, e@),
                    ..self@
                }),
    {
        self.with_config_type_with(key, AgentValue::number(default), "number", f)
    }

    pub fn with_string_config(self, key: &str, default: &str) -> (r: Self)
        ensures
            r@ == (DefinitionModel {
                default_configs: appended(self@.default_configs, key@, fresh_entry(ValueModel::Str(default@), "string"@)),
                ..self@
            }),
    {
        self.with_config_type(key, AgentValue::string(default), "string")
    }

    pub fn with_string_config_with<F: FnOnce(AgentConfigEntry) -> AgentConfigEntry>(self, key: &str, default: &str, f: F) -> (r: Self)
        requires
            forall|e: AgentConfigEntry| call_requires(f, (e,)),
        ensures
            exists|e0: AgentConfigEntry, e: AgentConfigEntry|
                e0@ == fresh_entry(ValueModel::Str(default@), "string"@) && call_ensures(f, (e0,), e) && r@ == (DefinitionModel {
                    default_configs: appended(self@.default_configs, key@, e@),
                    ..self@
                }),
    {
        self.with_config_type_with(key, AgentValue::string(default), "string", f)
    }

    pub fn with_text_config(self, key: &str, default: &str) -> (r: Self)
        ensures
            r@ == (DefinitionModel {
                default_configs: appended(self@.default_configs, key@, fresh_entry(ValueModel::Str(default@), "text"@)),
                ..self@
            }),
    {
        self.with_config_type(key, AgentValue::string(default), "text")
    }

    pub fn with_text_config_with<F: FnOnce(AgentConfigEntry) -> AgentConfigEntry>(self, key: &str, default: &str, f: F) -> (r: Self)
        requires
            forall|e: AgentConfigEntry| call_requires(f, (e,)),
        ensures
            exists|e0: AgentConfigEntry, e: AgentConfigEntry|
                e0@ == fresh_entry(ValueModel::Str(default@), "text"@) && call_ensures(f, (e0,), e) && r@ == (DefinitionModel {
                    default_configs: appended(self@.default_configs, key@, e@),
                    ..self@
                }),
    {
        self.with_config_type_with(key, AgentValue::string(default), "text", f)
    }

    pub fn with_object_config(self, key: &str, default: AgentValue) -> (r: Self)
        ensures
            r@ == (DefinitionModel {
                default_configs: appended(self@.default_configs, key@, fresh_entry(default@, "object"@)),
                ..self@
            }),
    {
        self.with_config_type(key, default, "object")
    }

    pub fn with_object_config_with<F: FnOnce(AgentConfigEntry) -> AgentConfigEntry>(self, key: &str, default: AgentValue, f: F) -> (r: Self)
        requires
            forall|e: AgentConfigEntry| call_requires(f, (e,)),
        ensures
            exists|e0: AgentConfigEntry, e: AgentConfigEntry|
                e0@ == fresh_entry(default@, "object"@) && call_ensures(f, (e0,), e) && r@ == (DefinitionModel {
                    default_configs: appended(self@.default_configs, key@, e@),
                    ..self@
                }),
    {
        self.with_config_type_with(key, default, "object", f)
    }

    pub fn with_boolean_config_default(self, key: &str) -> (r: Self)
        ensures
            r@ == (DefinitionModel {
                default_configs: appended(self@.default_configs, key@, fresh_entry(ValueModel::Boolean(false), "boolean"@)),
                ..self@
            }),
    {
        self.with_config_type(key, AgentValue::boolean_default(), "boolean")
    }

    pub fn with_integer_config_default(self, key: &str) -> (r: Self)
        ensures
            r@ == (DefinitionModel {
                default_configs: appended(self@.default_configs, key@, fresh_entry(ValueModel::Integer(0), "integer"@)),
                ..self@
            }),
    {
        self.with_config_type(key, AgentValue::integer_default(), "integer")
    }

    pub fn with_number_config_default(self, key: &str) -> (r: Self)
        ensures
            r@ == (DefinitionModel {
                default_configs: appended(self@.default_configs, key@, fresh_entry(ValueModel::Number(0), "number"@)),
                ..self@
            }),
    {
        self.with_config_type(key, AgentValue::number_default(), "number")
    }

    pub fn with_string_config_default(self, key: &str) -> (r: Self)
        ensures
            r@ == (DefinitionModel {
                default_configs: appended(self@.default_configs, key@, fresh_entry(ValueModel::Str(Seq::empty()), "string"@)),
                ..self@
            }),
    {
        self.with_config_type(key, AgentValue::string_default(), "string")
    }

    pub fn with_text_config_default(self, key: &str) -> (r: Self)
        ensures
            r@ == (DefinitionModel {
                default_configs: appended(self@.default_configs, key@, fresh_entry(ValueModel::Str(Seq::empty()), "text"@)),
                ..self@
            }),
    {
        self.with_config_type(key, AgentValue::string_default(), "text")
    }

    pub fn with_object_config_default(self, key: &str) -> (r: Self)
        ensures
            r@ == (DefinitionModel {
                default_configs: appended(self@.default_configs, key@, fresh_entry(ValueModel::Object(Seq::empty()), "object"@)),
                ..self@
            }),
    {
        self.with_config_type(key, AgentValue::object_default(), "object")
    }

    pub fn with_custom_config_with<F: FnOnce(AgentConfigEntry) -> AgentConfigEntry>(
        self,
        key: &str,
        default: AgentValue,
        type_: &str,
        f: F,
    ) -> (r: Self)
        requires
            forall|e: AgentConfigEntry| call_requires(f, (e,)),
        ensures
            exists|e0: AgentConfigEntry, e: AgentConfigEntry|
                e0@ == fresh_entry(default@, type_@) && call_ensures(f, (e0,), e) && r@ == (DefinitionModel {
                    default_configs: appended(self@.default_configs, key@, e@),
                    ..self@
                }),
    {
        self.with_config_type_with(key, default, type_, f)
    }

    pub fn with_unit_global_config(self, key: &str) -> (r: Self)
        ensures
            r@ == (DefinitionModel {
                global_configs: appended(self@.global_configs, key@, fresh_entry(ValueModel::Unit, "unit"@)),
                ..self@
            }),
    {
        self.with_global_config_type(key, AgentValue::unit(), "unit")
    }

    pub fn with_unit_global_config_with<F: FnOnce(AgentConfigEntry) -> AgentConfigEntry>(self, key: &str, f: F) -> (r: Self)
        requires
            forall|e: AgentConfigEntry| call_requires(f, (e,)),
        ensures
            exists|e0: AgentConfigEntry, e: AgentConfigEntry|
                e0@ == fresh_entry(ValueModel::Unit, "unit"@) && call_ensures(f, (e0,), e) && r@ == (DefinitionModel {
                    global_configs: appended(self@.global_configs, key@, e@),
                    ..self@
                }),
    {
        self.with_global_config_type_with(key, AgentValue::unit(), "unit", f)
    }

    pub fn with_boolean_global_config(self, key: &str, default: bool) -> (r: Self)
        ensures
            r@ == (DefinitionModel {
                global_configs: appended(self@.global_configs, key@, fresh_entry(ValueModel::Boolean(default), "boolean"@)),
                ..self@
            }),
    {
        self.with_global_config_type(key, AgentValue::boolean(default), "boolean")
    }

    pub fn with_boolean_global_config_with<F: FnOnce(AgentConfigEntry) -> AgentConfigEntry>(self, key: &str, default: bool, f: F) -> (r: Self)
        requires
            forall|e: AgentConfigEntry| call_requires(f, (e,)),
        ensures
            exists|e0: AgentConfigEntry, e: AgentConfigEntry|
                e0@ == fresh_entry(ValueModel::Boolean(default), "boolean"@) && call_ensures(f, (e0,), e) && r@ == (DefinitionModel {
                    global_configs: appended(self@.global_configs, key@, e@),
                    ..self@
                }),
    {
        self.with_global_config_type_with(key, AgentValue::boolean(default), "boolean", f)
    }

    pub fn with_integer_global_config(self, key: &str, default: i64) -> (r: Self)
        ensures
            r@ == (DefinitionModel {
                global_configs: appended(self@.global_configs, key@, fresh_entry(ValueModel::Integer(default), "integer"@)),
                ..self@
            }),
    {
        self.with_global_config_type(key, AgentValue::integer(default), "integer")
    }

    pub fn with_integer_global_config_with<F: FnOnce(AgentConfigEntry) -> AgentConfigEntry>(self, key: &str, default: i64, f: F) -> (r: Self)
        requires
            forall|e: AgentConfigEntry| call_requires(f, (e,)),
        ensures
            exists|e0: AgentConfigEntry, e: AgentConfigEntry|
                e0@ == fresh_entry(ValueModel::Integer(default), "integer"@) && call_ensures(f, (e0,), e) && r@ == (DefinitionModel {
                    global_configs: appended(self@.global_configs, key@, e@),
                    ..self@
                }),
    {
        self.with_global_config_type_with(key, AgentValue::integer(default), "integer", f)
    }

    pub fn with_number_global_config(self, key: &str, default: Float64) -> (r: Self)
        ensures
            r@ == (DefinitionModel {
                global_configs: appended(self@.global_configs, key@, fresh_entry(ValueModel::Number(default.bits), "number"@)),
                ..self@
            }),
    {
        self.with_global_config_type(key, AgentValue::number(default), "number")
    }

    pub fn with_number_global_config_with<F: FnOnce(AgentConfigEntry) -> AgentConfigEntry>(self, key: &str, default: Float64, f: F) -> (r: Self)
        requires
            forall|e: AgentConfigEntry| call_requires(f, (e,)),
        ensures
            exists|e0: AgentConfigEntry, e: AgentConfigEntry|
                e0@ == fresh_entry(ValueModel::Number(default.bits), "number"@) && call_ensures(f, (e0,), e) && r@ == (DefinitionModel {
                    global_configs: appended(self@.global_configs, key@, e@),
                    ..self@
                }),
    {
        self.with_global_config_type_with(key, AgentValue::number(default), "number", f)
    }

    pub fn with_string_global_config(self, key: &str, default: &str) -> (r: Self)
        ensures
            r@ == (DefinitionModel {
                global_configs: appended(self@.global_configs, key@, fresh_entry(ValueModel::Str(default@), "string"@)),
                ..self@
            }),
    {
        self.with_global_config_type(key, AgentValue::string(default), "string")
    }

    pub fn with_string_global_config_with<F: FnOnce(AgentConfigEntry) -> AgentConfigEntry>(self, key: &str, default: &str, f: F) -> (r: Self)
        requires
            forall|e: AgentConfigEntry| call_requires(f, (e,)),
        ensures
            exists|e0: AgentConfigEntry, e: AgentConfigEntry|
                e0@ == fresh_entry(ValueModel::Str(default@), "string"@) && call_ensures(f, (e0,), e) && r@ == (DefinitionModel {
                    global_configs: appended(self@.global_configs, key@, e@),
                    ..self@
                }),
    {
        self.with_global_config_type_with(key, AgentValue::string(default), "string", f)
    }

    pub fn with_text_global_config(self, key: &str, default: &str) -> (r: Self)
        ensures
            r@ == (DefinitionModel {
                global_configs: appended(self@.global_configs, key@, fresh_entry(ValueModel::Str(default@), "text"@)),
                ..self@
            }),
    {
        self.with_global_config_type(key, AgentValue::string(default), "text")
    }

    pub fn with_text_global_config_with<F: FnOnce(AgentConfigEntry) -> AgentConfigEntry>(self, key: &str, default: &str, f: F) -> (r: Self)
        requires
            forall|e: AgentConfigEntry| call_requires(f, (e,)),
        ensures
            exists|e0: AgentConfigEntry, e: AgentConfigEntry|
                e0@ == fresh_entry(ValueModel::Str(default@), "text"@) && call_ensures(f, (e0,), e) && r@ == (DefinitionModel {
                    global_configs: appended(self@.global_configs, key@, e@),
                    ..self@
                }),
    {
        self.with_global_config_type_with(key, AgentValue::string(default), "text", f)
    }

    pub fn with_object_global_config(self, key: &str, default: AgentValue) -> (r: Self)
        ensures
            r@ == (DefinitionModel {
                global_configs: appended(self@.global_configs, key@, fresh_entry(default@, "object"@)),
                ..self@
            }),
    {
        self.with_global_config_type(key, default, "object")
    }

    pub fn with_object_global_config_with<F: FnOnce(AgentConfigEntry) -> AgentConfigEntry>(self, key: &str, default: AgentValue, f: F) -> (r: Self)
        requires
            forall|e: AgentConfigEntry| call_requires(f, (e,)),
        ensures
            exists|e0: AgentConfigEntry, e: AgentConfigEntry|
                e0@ == fresh_entry(default@, "object"@) && call_ensures(f, (e0,), e) && r@ == (DefinitionModel {
                    global_configs: appended(self@.global_configs, key@, e@),
                    ..self@
                }),
    {
        self.with_global_config_type_with(key, default, "object", f)
    }

    pub fn with_custom_global_config_with<F: FnOnce(AgentConfigEntry) -> AgentConfigEntry>(
        self,
        key: &str,
        default: AgentValue,
        type_: &str,
        f: F,
    ) -> (r: Self)
        requires
            forall|e: AgentConfigEntry| call_requires(f, (e,)),
        ensures
            exists|e0: AgentConfigEntry, e: AgentConfigEntry|
                e0@ == fresh_entry(default@, type_@) && call_ensures(f, (e0,), e) && r@ == (DefinitionModel {
                    global_configs: appended(self@.global_configs, key@, e@),
                    ..self@
                }),
    {
        self.with_global_config_type_with(key, default, type_, f)
    }

    pub fn with_unit_display_config(self, key: &str) -> (r: Self)
        ensures
            r@ == (DefinitionModel {
                display_configs: appended(self@.display_configs, key@, fresh_display_entry("unit"@)),
                ..self@
            }),
    {
        self.with_display_config_type(key, "unit")
    }

    pub fn with_unit_display_config_with<F: FnOnce(AgentDisplayConfigEntry) -> AgentDisplayConfigEntry>(
        self,
        key: &str,
        f: F,
    ) -> (r: Self)
        requires
            forall|e: AgentDisplayConfigEntry| call_requires(f, (e,)),
        ensures
            exists|e0: AgentDisplayConfigEntry, e: AgentDisplayConfigEntry|
                e0@ == fresh_display_entry("unit"@) && call_ensures(f, (e0,), e) && r@ == (DefinitionModel {
                    display_configs: appended(self@.display_configs, key@, e@),
                    ..self@
                }),
    {
        self.with_display_config_type_with(key, "unit", f)
    }

    pub fn with_boolean_display_config(self, key: &str) -> (r: Self)
        ensures
            r@ == (DefinitionModel {
                display_configs: appended(self@.display_configs, key@, fresh_display_entry("boolean"@)),
                ..self@
            }),
    {
        self.with_display_config_type(key, "boolean")
    }

    pub fn with_boolean_display_config_with<F: FnOnce(AgentDisplayConfigEntry) -> AgentDisplayConfigEntry>(
        self,
        key: &str,
        f: F,
    ) -> (r: Self)
        requires
            forall|e: AgentDisplayConfigEntry| call_requires(f, (e,)),
        ensures
            exists|e0: AgentDisplayConfigEntry, e: AgentDisplayConfigEntry|
                e0@ == fresh_display_entry("boolean"@) && call_ensures(f, (e0,), e) && r@ == (DefinitionModel {
                    display_configs: appended(self@.display_configs, key@, e@),
                    ..self@
                }),
    {
        self.with_display_config_type_with(key, "boolean", f)
    }

    pub fn with_integer_display_config(self, key: &str) -> (r: Self)
        ensures
            r@ == (DefinitionModel {
                display_configs: appended(self@.display_configs, key@, fresh_display_entry("integer"@)),
                ..self@
            }),
    {
        self.with_display_config_type(key, "integer")
    }

    pub fn with_integer_display_config_with<F: FnOnce(AgentDisplayConfigEntry) -> AgentDisplayConfigEntry>(
        self,
        key: &str,
        f: F,
    ) -> (r: Self)
        requires
            forall|e: AgentDisplayConfigEntry| call_requires(f, (e,)),
        ensures
            exists|e0: AgentDisplayConfigEntry, e: AgentDisplayConfigEntry|
                e0@ == fresh_display_entry("integer"@) && call_ensures(f, (e0,), e) && r@ == (DefinitionModel {
                    display_configs: appended(self@.display_configs, key@, e@),
                    ..self@
                }),
    {
        self.with_display_config_type_with(key, "integer", f)
    }

    pub fn with_number_display_config(self, key: &str) -> (r: Self)
        ensures
            r@ == (DefinitionModel {
                display_configs: appended(self@.display_configs, key@, fresh_display_entry("number"@)),
                ..self@
            }),
    {
        self.with_display_config_type(key, "number")
    }

    pub fn with_number_display_config_with<F: FnOnce(AgentDisplayConfigEntry) -> AgentDisplayConfigEntry>(
        self,
        key: &str,
        f: F,
    ) -> (r: Self)
        requires
            forall|e: AgentDisplayConfigEntry| call_requires(f, (e,)),
        ensures
            exists|e0: AgentDisplayConfigEntry, e: AgentDisplayConfigEntry|
                e0@ == fresh_display_entry("number"@) && call_ensures(f, (e0,), e) && r@ == (DefinitionModel {
                    display_configs: appended(self@.display_configs, key@, e@),
                    ..self@
                }),
    {
        self.with_display_config_type_with(key, "number", f)
    }

    pub fn with_string_display_config(self, key: &str) -> (r: Self)
        ensures
            r@ == (DefinitionModel {
                display_configs: appended(self@.display_configs, key@, fresh_display_entry("string"@)),
                ..self@
            }),
    {
        self.with_display_config_type(key, "string")
    }

    pub fn with_string_display_config_with<F: FnOnce(AgentDisplayConfigEntry) -> AgentDisplayConfigEntry>(
        self,
        key: &str,
        f: F,
    ) -> (r: Self)
        requires
            forall|e: AgentDisplayConfigEntry| call_requires(f, (e,)),
        ensures
            exists|e0: AgentDisplayConfigEntry, e: AgentDisplayConfigEntry|
                e0@ == fresh_display_entry("string"@) && call_ensures(f, (e0,), e) && r@ == (DefinitionModel {
                    display_configs: appended(self@.display_configs, key@, e@),
                    ..self@
                }),
    {
        self.with_display_config_type_with(key, "string", f)
    }

    pub fn with_text_display_config(self, key: &str) -> (r: Self)
        ensures
            r@ == (DefinitionModel {
                display_configs: appended(self@.display_configs, key@, fresh_display_entry("text"@)),
                ..self@
            }),
    {
        self.with_display_config_type(key, "text")
    }

    pub fn with_text_display_config_with<F: FnOnce(AgentDisplayConfigEntry) -> AgentDisplayConfigEntry>(
        self,
        key: &str,
        f: F,
    ) -> (r: Self)
        requires
            forall|e: AgentDisplayConfigEntry| call_requires(f, (e,)),
        ensures
            exists|e0: AgentDisplayConfigEntry, e: AgentDisplayConfigEntry|
                e0@ == fresh_display_entry("text"@) && call_ensures(f, (e0,), e) && r@ == (DefinitionModel {
                    display_configs: appended(self@.display_configs, key@, e@),
                    ..self@
                }),
    {
        self.with_display_config_type_with(key, "text", f)
    }

    pub fn with_object_display_config(self, key: &str) -> (r: Self)
        ensures
            r@ == (DefinitionModel {
                display_configs: appended(self@.display_configs, key@, fresh_display_entry("object"@)),
                ..self@
            }),
    {
        self.with_display_config_type(key, "object")
    }

    pub fn with_object_display_config_with<F: FnOnce(AgentDisplayConfigEntry) -> AgentDisplayConfigEntry>(
        self,
        key: &str,
        f: F,
    ) -> (r: Self)
        requires
            forall|e: AgentDisplayConfigEntry| call_requires(f, (e,)),
        ensures
            exists|e0: AgentDisplayConfigEntry, e: AgentDisplayConfigEntry|
                e0@ == fresh_display_entry("object"@) && call_ensures(f, (e0,), e) && r@ == (DefinitionModel {
                    display_configs: appended(self@.display_configs, key@, e@),
                    ..self@
                }),
    {
        self.with_display_config_type_with(key, "object", f)
    }

    pub fn with_custom_display_config_with<F: FnOnce(AgentDisplayConfigEntry) -> AgentDisplayConfigEntry>(
        self,
        key: &str,
        type_: &str,
        f: F,
    ) -> (r: Self)
        requires
            forall|e: AgentDisplayConfigEntry| call_requires(f, (e,)),
        ensures
            exists|e0: AgentDisplayConfigEntry, e: AgentDisplayConfigEntry|
                e0@ == fresh_display_entry(type_@) && call_ensures(f, (e0,), e) && r@ == (DefinitionModel {
                    display_configs: appended(self@.display_configs, key@, e@),
                    ..self@
                }),
    {
        self.with_display_config_type_with(key, type_, f)
    }
}

/// Copies of an optional list of names.
fn duplicate_names(o: &Option<Vec<String>>) -> (r: Option<Vec<String>>)
    ensures
        names_view(r) == names_view(*o),
{
    match o {
        Some(v) => {
            let mut out: Vec<String> = Vec::new();
            let mut i: usize = 0;
            while i < v.len()
                invariant
                    i <= v@.len(),
                    out@.len() == i,
                    forall|t: int| 0 <= t < i ==> #[trigger] out@[t]@ == v@[t]@,
                decreases v.len() - i,
            {
                out.push(v[i].clone());
                i = i + 1;
            }
            assert(out@.map_values(|s: String| s@) =~= v@.map_values(|s: String| s@));
            Some(out)
        },
        None => None,
    }
}

/// Copies of an optional list of configuration entries.
pub fn duplicate_config_entries(o: &Option<Vec<(String, AgentConfigEntry)>>) -> (r: Option<Vec<(String, AgentConfigEntry)>>)
    ensures
        config_entries_view(r) == config_entries_view(*o),
{
    match o {
        Some(v) => {
            let mut out: Vec<(String, AgentConfigEntry)> = Vec::new();
            let mut i: usize = 0;
            while i < v.len()
                invariant
                    i <= v@.len(),
                    out@.len() == i,
                    forall|t: int| 0 <= t < i ==> #[trigger] out@[t].0@ == v@[t].0@ && out@[t].1@ == v@[t].1@,
                decreases v.len() - i,
            {
                out.push((v[i].0.clone(), v[i].1.duplicate()));
                i = i + 1;
            }
            assert(out@.map_values(|p: (String, AgentConfigEntry)| (p.0@, p.1@)) =~= v@.map_values(|p: (String, AgentConfigEntry)| (p.0@, p.1@)));
            Some(out)
        },
        None => None,
    }
}

/// Copies of an optional list of display entries.
fn duplicate_display_entries(o: &Option<Vec<(String, AgentDisplayConfigEntry)>>) -> (r: Option<Vec<(String, AgentDisplayConfigEntry)>>)
    ensures
        display_entries_view(r) == display_entries_view(*o),
{
    match o {
        Some(v) => {
            let mut out: Vec<(String, AgentDisplayConfigEntry)> = Vec::new();
            let mut i: usize = 0;
            while i < v.len()
                invariant
                    i <= v@.len(),
                    out@.len() == i,
                    forall|t: int| 0 <= t < i ==> #[trigger] out@[t].0@ == v@[t].0@ && out@[t].1@ == v@[t].1@,
                decreases v.len() - i,
            {
                out.push((v[i].0.clone(), v[i].1.duplicate()));
                i = i + 1;
            }
            assert(out@.map_values(|p: (String, AgentDisplayConfigEntry)| (p.0@, p.1@)) =~= v@.map_values(|p: (String, AgentDisplayConfigEntry)| (p.0@, p.1@)));
            Some(out)
        },
        None => None,
    }
}

impl AgentDefinition {
    /// A copy of the definition.
    pub fn duplicate(&self) -> (r: Self)
        ensures
            r@ == self@,
    {
        AgentDefinition {
            kind: self.kind.clone(),
            name: self.name.clone(),
            title: self.title.clone(),
            description: self.description.clone(),
            category: self.category.clone(),
            inputs: duplicate_names(&self.inputs),
            outputs: duplicate_names(&self.outputs),
            default_configs: duplicate_config_entries(&self.default_configs),
            global_configs: duplicate_config_entries(&self.global_configs),
            display_configs: duplicate_display_entries(&self.display_configs),
            native_thread: self.native_thread,
        }
    }
}

impl Clone for AgentDefinition {
    fn clone(&self) -> (r: Self)
        ensures
            r@ == self@,
    {
        self.duplicate()
    }
}

} // verus!
