//! The state of an agent stream kit: the registered definitions, the flows,
//! the agents that the flows' nodes created, the edges between them, and the
//! boards; with the operations that change it and the routing of output.

use crate::data::AgentData;
use crate::definition::{config_entries_view, duplicate_config_entries, AgentConfigEntry, AgentDefinition, ConfigEntryModel, DefinitionModel};
use crate::error::{AgentError, ErrorModel};
use crate::flow::{
    edge_not, edge_models, enabled_ids, node_models, node_not, AgentFlow, AgentFlowEdge, AgentFlowNode, EdgeModel,
    FlowModel, NodeModel,
};
use crate::ids::{decimal, decimal_string, IdCounter};
use crate::keymap::KeyMap;
use crate::names::{
    is_unique_flow_name, is_valid_flow_name, lemma_keys_bounded, lemma_numbered_names_taken, numbered_name, trim,
    trim_string, valid_flow_name,
};
use crate::text::{concat, str_eq, to_string};
use crate::value::ValueModel;
use vstd::prelude::*;

verus! {

broadcast use vstd::string::group_string_axioms;

/// Where an agent is in its life.
#[derive(Debug, Clone, Copy, PartialEq, Eq, Structural)]
pub enum AgentStatus {
    Init,
    Start,
    Stop,
}

impl Default for AgentStatus {
    fn default() -> (r: Self)
        ensures
            r == AgentStatus::Init,
    {
        AgentStatus::Init
    }
}

/// What the kit knows of an agent: its definition's name and its status.
#[derive(Debug)]
pub struct AgentSlot {
    pub def_name: String,
    pub status: AgentStatus,
}

pub struct SlotModel {
    pub def_name: Seq<char>,
    pub status: AgentStatus,
}

impl View for AgentSlot {
    type V = SlotModel;

    open spec fn view(&self) -> SlotModel {
        SlotModel { def_name: self.def_name@, status: self.status }
    }
}

/// A connection from an agent: the target agent, the source port and the
/// target port.
pub type Route = (Seq<char>, Seq<char>, Seq<char>);

pub open spec fn route_view(t: (String, String, String)) -> Route {
    (t.0@, t.1@, t.2@)
}

pub open spec fn routes_view(v: Seq<(String, String, String)>) -> Seq<Route> {
    v.map_values(|t: (String, String, String)| route_view(t))
}

pub open spec fn pairs_view(v: Seq<(String, String)>) -> Seq<(Seq<char>, Seq<char>)> {
    v.map_values(|p: (String, String)| (p.0@, p.1@))
}

pub open spec fn names_of(v: Seq<String>) -> Seq<Seq<char>> {
    v.map_values(|s: String| s@)
}

/// The model of the kit's state.
pub struct KitModel {
    /// Agents by identifier.
    pub agents: Map<Seq<char>, SlotModel>,
    /// The board-out agents of each board, in the order they started.
    pub board_out_agents: Map<Seq<char>, Seq<Seq<char>>>,
    /// The last data written to each board: its kind and value.
    pub board_data: Map<Seq<char>, (Seq<char>, ValueModel)>,
    /// The connections from each source agent, in the order they were made.
    pub edges: Map<Seq<char>, Seq<Route>>,
    /// Definitions by name.
    pub defs: Map<Seq<char>, DefinitionModel>,
    /// Flows by name.
    pub flows: Map<Seq<char>, FlowModel>,
}

/// The state of an agent stream kit.
pub struct ASKit {
    agents: KeyMap<AgentSlot>,
    board_out_agents: KeyMap<Vec<String>>,
    board_data: KeyMap<AgentData>,
    edges: KeyMap<Vec<(String, String, String)>>,
    defs: KeyMap<AgentDefinition>,
    flows: KeyMap<AgentFlow>,
}

impl View for ASKit {
    type V = KitModel;

    closed spec fn view(&self) -> KitModel {
        KitModel {
            agents: self.agents.map().map_values(|s: AgentSlot| s@),
            board_out_agents: self.board_out_agents.map().map_values(|v: Vec<String>| names_of(v@)),
            board_data: self.board_data.map().map_values(|d: AgentData| (d.kind@, d.value@)),
            edges: self.edges.map().map_values(|v: Vec<(String, String, String)>| routes_view(v@)),
            defs: self.defs.map().map_values(|d: AgentDefinition| d@),
            flows: self.flows.map().map_values(|f: AgentFlow| f@),
        }
    }
}

/// The model of a flow with a name and nothing in it.
pub open spec fn empty_flow(name: Seq<char>) -> FlowModel {
    FlowModel { name, nodes: Seq::empty(), edges: Seq::empty(), extensions: Seq::empty() }
}

/// Copies of the definitions of a map.
fn duplicate_defs(m: &KeyMap<AgentDefinition>) -> (r: KeyMap<AgentDefinition>)
    ensures
        r.map().map_values(|d: AgentDefinition| d@) == m.map().map_values(|d: AgentDefinition| d@),
{
    let n = m.len();
    let mut out: KeyMap<AgentDefinition> = KeyMap::new();
    let mut i: usize = 0;
    while i < n
        invariant
            i <= n == m.pairs().len(),
            crate::keymap::increasing(m.pairs()),
            out.pairs().len() == i,
            forall|t: int| 0 <= t < i ==> #[trigger] out.pairs()[t].0 == m.pairs()[t].0,
            forall|t: int| 0 <= t < i ==> #[trigger] out.pairs()[t].1@ == m.pairs()[t].1@,
        decreases n - i,
    {
        let key = m.key_at(i).clone();
        let v = m.value_at(i).duplicate();
        proof {
            assert forall|t: int| 0 <= t < out.pairs().len() implies crate::text::chars_less(#[trigger] out.pairs()[t].0, key@) by {
                assert(crate::text::chars_less(m.pairs()[t].0, m.pairs()[i as int].0));
            }
        }
        let ghost before = out.pairs();
        let ghost vm = v@;
        out.push_last(key, v);
        assert(out.pairs()[i as int].1@ == vm);
        assert(forall|t: int| 0 <= t < i ==> #[trigger] out.pairs()[t] == before[t]);
        i = i + 1;
    }
    proof {
        let f = |d: AgentDefinition| d@;
        let ps = m.pairs().map_values(|p: (Seq<char>, AgentDefinition)| (p.0, f(p.1)));
        let qs = out.pairs().map_values(|p: (Seq<char>, AgentDefinition)| (p.0, f(p.1)));
        assert(ps =~= qs);
        crate::keymap::lemma_map_of_mapped(m.pairs(), ps, f);
        crate::keymap::lemma_map_of_mapped(out.pairs(), qs, f);
        assert forall|k: Seq<char>| #[trigger] out.map().map_values(f).contains_key(k) == m.map().map_values(f).contains_key(k) by {
            assert(crate::keymap::pairs_to_map(qs).contains_key(k) == crate::keymap::pairs_to_map(ps).contains_key(k));
        }
        assert forall|k: Seq<char>| m.map().contains_key(k) implies #[trigger] out.map().map_values(f)[k] == m.map().map_values(f)[k] by {
            assert(crate::keymap::pairs_to_map(ps).contains_key(k));
            assert(crate::keymap::pairs_to_map(qs).contains_key(k));
            assert(out.map().contains_key(k));
            assert(crate::keymap::pairs_to_map(qs)[k] == f(out.map()[k]));
            assert(crate::keymap::pairs_to_map(ps)[k] == f(m.map()[k]));
        }
        assert(out.map().map_values(f) =~= m.map().map_values(f));
    }
    out
}

/// Copies of the flows of a map.
fn duplicate_flows(m: &KeyMap<AgentFlow>) -> (r: KeyMap<AgentFlow>)
    ensures
        r.map().map_values(|f: AgentFlow| f@) == m.map().map_values(|f: AgentFlow| f@),
{
    let n = m.len();
    let mut out: KeyMap<AgentFlow> = KeyMap::new();
    let mut i: usize = 0;
    while i < n
        invariant
            i <= n == m.pairs().len(),
            crate::keymap::increasing(m.pairs()),
            out.pairs().len() == i,
            forall|t: int| 0 <= t < i ==> #[trigger] out.pairs()[t].0 == m.pairs()[t].0,
            forall|t: int| 0 <= t < i ==> #[trigger] out.pairs()[t].1@ == m.pairs()[t].1@,
        decreases n - i,
    {
        let key = m.key_at(i).clone();
        let v = m.value_at(i).duplicate();
        proof {
            assert forall|t: int| 0 <= t < out.pairs().len() implies crate::text::chars_less(#[trigger] out.pairs()[t].0, key@) by {
                assert(crate::text::chars_less(m.pairs()[t].0, m.pairs()[i as int].0));
            }
        }
        let ghost before = out.pairs();
        let ghost vm = v@;
        out.push_last(key, v);
        assert(out.pairs()[i as int].1@ == vm);
        assert(forall|t: int| 0 <= t < i ==> #[trigger] out.pairs()[t] == before[t]);
        i = i + 1;
    }
    proof {
        let f = |d: AgentFlow| d@;
        let ps = m.pairs().map_values(|p: (Seq<char>, AgentFlow)| (p.0, f(p.1)));
        let qs = out.pairs().map_values(|p: (Seq<char>, AgentFlow)| (p.0, f(p.1)));
        assert(ps =~= qs);
        crate::keymap::lemma_map_of_mapped(m.pairs(), ps, f);
        crate::keymap::lemma_map_of_mapped(out.pairs(), qs, f);
        assert forall|k: Seq<char>| #[trigger] out.map().map_values(f).contains_key(k) == m.map().map_values(f).contains_key(k) by {
            assert(crate::keymap::pairs_to_map(qs).contains_key(k) == crate::keymap::pairs_to_map(ps).contains_key(k));
        }
        assert forall|k: Seq<char>| m.map().contains_key(k) implies #[trigger] out.map().map_values(f)[k] == m.map().map_values(f)[k] by {
            assert(crate::keymap::pairs_to_map(ps).contains_key(k));
            assert(crate::keymap::pairs_to_map(qs).contains_key(k));
            assert(out.map().contains_key(k));
            assert(crate::keymap::pairs_to_map(qs)[k] == f(out.map()[k]));
            assert(crate::keymap::pairs_to_map(ps)[k] == f(m.map()[k]));
        }
        assert(out.map().map_values(f) =~= m.map().map_values(f));
    }
    out
}

/// The unique name is not taken.
pub proof fn lemma_unique_flow_name_free(taken: Set<Seq<char>>, name: Seq<char>, r: Seq<char>)
    requires
        is_unique_flow_name(taken, name, r),
    ensures
        !taken.contains(r),
{
}

/// Hands out the next observer number.
pub fn new_observer_id(counter: &mut IdCounter) -> (r: usize)
    ensures
        r == old(counter).upcoming(),
        final(counter).upcoming() == crate::ids::successor(old(counter).upcoming()),
{
    counter.fetch_next()
}

impl ASKit {
    /// A kit with nothing registered.
    pub fn new() -> (r: Self)
        ensures
            r@ == (KitModel {
                agents: Map::empty(),
                board_out_agents: Map::empty(),
                board_data: Map::empty(),
                edges: Map::empty(),
                defs: Map::empty(),
                flows: Map::empty(),
            }),
    {
        let r = ASKit {
            agents: KeyMap::new(),
            board_out_agents: KeyMap::new(),
            board_data: KeyMap::new(),
            edges: KeyMap::new(),
            defs: KeyMap::new(),
            flows: KeyMap::new(),
        };
        assert(r@.agents =~= Map::<Seq<char>, SlotModel>::empty());
        assert(r@.board_out_agents =~= Map::<Seq<char>, Seq<Seq<char>>>::empty());
        assert(r@.board_data =~= Map::<Seq<char>, (Seq<char>, ValueModel)>::empty());
        assert(r@.edges =~= Map::<Seq<char>, Seq<Route>>::empty());
        assert(r@.defs =~= Map::<Seq<char>, DefinitionModel>::empty());
        assert(r@.flows =~= Map::<Seq<char>, FlowModel>::empty());
        r
    }

    /// Registers a definition under its name, replacing one of the same name.
    pub fn register_agent(&mut self, def: AgentDefinition)
        ensures
            final(self)@ == (KitModel { defs: old(self)@.defs.insert(def@.name, def@), ..old(self)@ }),
    {
        let ghost dm = def@;
        let name = def.name.clone();
        self.defs.insert(name, def);
        assert(self@.defs =~= old(self)@.defs.insert(dm.name, dm));
    }

    /// Copies of all definitions.
    pub fn get_agent_definitions(&self) -> (r: KeyMap<AgentDefinition>)
        ensures
            r.map().map_values(|d: AgentDefinition| d@) == self@.defs,
    {
        duplicate_defs(&self.defs)
    }

    /// A copy of the definition named `def_name`, if registered.
    pub fn get_agent_definition(&self, def_name: &str) -> (r: Option<AgentDefinition>)
        ensures
            match r {
                Some(d) => self@.defs.contains_key(def_name@) && d@ == self@.defs[def_name@],
                None => !self@.defs.contains_key(def_name@),
            },
    {
        match self.defs.get(def_name) {
            Some(d) => Some(d.duplicate()),
            None => None,
        }
    }

    /// A copy of the default configuration entries of the definition named
    /// `def_name`; `None` where it is not registered or has none.
    pub fn get_agent_default_config(&self, def_name: &str) -> (r: Option<Vec<(String, AgentConfigEntry)>>)
        ensures
            config_entries_view(r) == (if self@.defs.contains_key(def_name@) {
                self@.defs[def_name@].default_configs
            } else {
                None
            }),
    {
        match self.defs.get(def_name) {
            Some(d) => duplicate_config_entries(&d.default_configs),
            None => None,
        }
    }

    /// Copies of all flows.
    pub fn get_agent_flows(&self) -> (r: KeyMap<AgentFlow>)
        ensures
            r.map().map_values(|f: AgentFlow| f@) == self@.flows,
    {
        duplicate_flows(&self.flows)
    }

    /// A copy of the flow named `name`, if there is one.
    pub fn get_agent_flow(&self, name: &str) -> (r: Option<AgentFlow>)
        ensures
            match r {
                Some(f) => self@.flows.contains_key(name@) && f@ == self@.flows[name@],
                None => !self@.flows.contains_key(name@),
            },
    {
        match self.flows.get(name) {
            Some(f) => Some(f.duplicate()),
            None => None,
        }
    }

    /// Whether `name` is a valid flow name.
    pub fn is_valid_flow_name(name: &str) -> (r: bool)
        ensures
            r == valid_flow_name(name@),
    {
        is_valid_flow_name(name)
    }

    /// A name for a new flow: the trimmed name where no flow has it, else the
    /// name followed by the least number from two on that no flow has.
    pub fn unique_flow_name(&self, name: &str) -> (r: String)
        ensures
            is_unique_flow_name(self@.flows.dom(), name@, r@),
    {
        let ghost taken = self@.flows.dom();
        proof {
            assert forall|k: Seq<char>| #[trigger] taken.contains(k) == self.flows.map().contains_key(k) by {}
        }
        let trimmed = trim_string(name);
        if !self.flows.contains_key(trimmed.as_str()) {
            return trimmed;
        }
        proof {
            lemma_keys_bounded(self.flows.pairs());
            assert(taken =~= self.flows.map().dom());
        }
        let n = self.flows.len();
        let mut i: u128 = 2;
        loop
            invariant
                2 <= i <= n as u128 + 2,
                taken == self@.flows.dom(),
                taken.finite(),
                taken.len() <= n,
                taken.contains(trim(name@)),
                forall|k: Seq<char>| #[trigger] taken.contains(k) == self.flows.map().contains_key(k),
                forall|j: nat| 2 <= j < i ==> taken.contains(#[trigger] numbered_name(name@, j)),
            decreases n as u128 + 2 - i,
        {
            let candidate = concat(name, decimal_string(i).as_str());
            if !self.flows.contains_key(candidate.as_str()) {
                proof {
                    assert(candidate@ == numbered_name(name@, i as nat));
                }
                return candidate;
            }
            proof {
                assert(taken.contains(numbered_name(name@, i as nat)));
                assert forall|j: nat| 2 <= j < i + 1 implies taken.contains(#[trigger] numbered_name(name@, j)) by {
                    if j == i {
                    }
                }
                lemma_numbered_names_taken(taken, name@, (i + 1) as nat);
            }
            i = i + 1;
        }
    }

    /// Makes a new, empty flow under a unique form of `name`.
    pub fn new_agent_flow(&mut self, name: &str) -> (r: Result<AgentFlow, AgentError>)
        ensures
            valid_flow_name(name@) <==> r is Ok,
            match r {
                Ok(f) => {
                    &&& is_unique_flow_name(old(self)@.flows.dom(), name@, f@.name)
                    &&& f@ == empty_flow(f@.name)
                    &&& final(self)@ == (KitModel { flows: old(self)@.flows.insert(f@.name, f@), ..old(self)@ })
                },
                Err(e) => e@ == ErrorModel::InvalidFlowName(name@) && final(self)@ == old(self)@,
            },
    {
        if !is_valid_flow_name(name) {
            return Err(AgentError::InvalidFlowName(to_string(name)));
        }
        let new_name = self.unique_flow_name(name);
        let flow = AgentFlow::new(new_name.clone());
        let copy = flow.duplicate();
        let ghost fm = flow@;
        self.flows.insert(new_name, flow);
        assert(self@.flows =~= old(self)@.flows.insert(fm.name, fm));
        Ok(copy)
    }

    /// Renames the flow `old_name` to a unique form of `new_name`, worked
    /// out while the flow still has its old name, and returns that name.
    pub fn rename_agent_flow(&mut self, old_name: &str, new_name: &str) -> (r: Result<String, AgentError>)
        ensures
            !valid_flow_name(new_name@) ==> (r matches Err(e) && e@ == ErrorModel::InvalidFlowName(new_name@)),
            valid_flow_name(new_name@) && !old(self)@.flows.contains_key(old_name@) ==> (r matches Err(e)
                && e@ == ErrorModel::RenameFlowFailed(old_name@)),
            r is Err ==> final(self)@ == old(self)@,
            valid_flow_name(new_name@) && old(self)@.flows.contains_key(old_name@) ==> r is Ok,
            r matches Ok(n) ==> {
                &&& is_unique_flow_name(old(self)@.flows.dom(), new_name@, n@)
                &&& final(self)@ == (KitModel {
                    flows: old(self)@.flows.remove(old_name@).insert(
                        n@,
                        FlowModel { name: n@, ..old(self)@.flows[old_name@] },
                    ),
                    ..old(self)@
                })
            },
    {
        if !is_valid_flow_name(new_name) {
            return Err(AgentError::InvalidFlowName(to_string(new_name)));
        }
        let unique = self.unique_flow_name(new_name);
        let removed = self.flows.remove(old_name);
        match removed {
            None => {
                assert(self@.flows =~= old(self)@.flows);
                Err(AgentError::RenameFlowFailed(to_string(old_name)))
            },
            Some(mut flow) => {
                let ghost fm = flow@;
                flow.set_name(unique.clone());
                let ghost renamed = flow@;
                let ghost n = unique@;
                let ghost mid = self@.flows;
                assert(mid =~= old(self)@.flows.remove(old_name@));
                self.flows.insert(unique.clone(), flow);
                assert(self@.flows =~= mid.insert(n, renamed));
                Ok(unique)
            },
        }
    }

    /// Stores `flow` under its name, replacing a flow of that name.
    pub fn insert_agent_flow(&mut self, flow: AgentFlow) -> (r: Result<(), AgentError>)
        ensures
            r is Ok,
            final(self)@ == (KitModel { flows: old(self)@.flows.insert(flow@.name, flow@), ..old(self)@ }),
    {
        let ghost fm = flow@;
        let name = to_string(flow.name());
        self.flows.insert(name, flow);
        assert(self@.flows =~= old(self)@.flows.insert(fm.name, fm));
        Ok(())
    }
}

/// The connection that an edge makes from its source agent.
pub open spec fn route_of(e: EdgeModel) -> Route {
    (e.target, e.source_handle, e.target_handle)
}

/// Adding the agent of a node: refused where an agent with the node's
/// identifier exists, or where it could not be created (its definition is
/// not registered, or making it failed); else the agent is there, not started.
pub open spec fn spec_add_agent(m: KitModel, node: NodeModel, created: bool) -> Result<KitModel, ErrorModel> {
    if m.agents.contains_key(node.id) {
        Err(ErrorModel::AgentAlreadyExists(node.id))
    } else if !created || !m.defs.contains_key(node.def_name) {
        Err(ErrorModel::AgentCreationFailed(node.id))
    } else {
        Ok(KitModel { agents: m.agents.insert(node.id, SlotModel { def_name: node.def_name, status: AgentStatus::Init }), ..m })
    }
}

/// Connecting by an edge: refused where the source agent is missing, a port
/// is empty, or the same connection exists; else the connection is added
/// after those of the source agent.
pub open spec fn spec_add_edge(m: KitModel, e: EdgeModel) -> Result<KitModel, ErrorModel> {
    if !m.agents.contains_key(e.source) {
        Err(ErrorModel::SourceAgentNotFound(e.source))
    } else if e.source_handle.len() == 0 {
        Err(ErrorModel::EmptySourceHandle)
    } else if e.target_handle.len() == 0 {
        Err(ErrorModel::EmptyTargetHandle)
    } else if m.edges.contains_key(e.source) {
        if m.edges[e.source].contains(route_of(e)) {
            Err(ErrorModel::EdgeAlreadyExists)
        } else {
            Ok(KitModel { edges: m.edges.insert(e.source, m.edges[e.source].push(route_of(e))), ..m })
        }
    } else {
        Ok(KitModel { edges: m.edges.insert(e.source, seq![route_of(e)]), ..m })
    }
}

/// Whether a connection differs from `t`.
pub open spec fn route_not(t: Route) -> spec_fn(Route) -> bool {
    |x: Route| x != t
}

/// Whether a connection goes to an agent other than `id`.
pub open spec fn not_to(id: Seq<char>) -> spec_fn(Route) -> bool {
    |x: Route| x.0 != id
}

/// Disconnecting an edge: its connection leaves the source agent's list, and
/// a list left empty goes.
pub open spec fn spec_remove_edge(m: KitModel, e: EdgeModel) -> KitModel {
    if m.edges.contains_key(e.source) {
        let kept = m.edges[e.source].filter(route_not(route_of(e)));
        if kept.len() == 0 {
            KitModel { edges: m.edges.remove(e.source), ..m }
        } else {
            KitModel { edges: m.edges.insert(e.source, kept), ..m }
        }
    } else {
        m
    }
}

/// Stopping an agent: refused where it is missing; a started agent goes
/// back to its initial status, and the flag says whether it was started.
pub open spec fn spec_stop_agent(m: KitModel, id: Seq<char>) -> Result<(KitModel, bool), ErrorModel> {
    if !m.agents.contains_key(id) {
        Err(ErrorModel::AgentNotFound(id))
    } else if m.agents[id].status == AgentStatus::Start {
        Ok((KitModel { agents: m.agents.insert(id, SlotModel { status: AgentStatus::Init, ..m.agents[id] }), ..m }, true))
    } else {
        Ok((m, false))
    }
}

/// The connections without those to `id`, and without the sources left with
/// none and `id` itself.
pub open spec fn edges_without_agent(edges: Map<Seq<char>, Seq<Route>>, id: Seq<char>) -> Map<Seq<char>, Seq<Route>> {
    Map::new(
        |s: Seq<char>| edges.contains_key(s) && s != id && edges[s].filter(not_to(id)).len() > 0,
        |s: Seq<char>| edges[s].filter(not_to(id)),
    )
}

/// Removing an agent: it is stopped, its connections in and out go, and
/// then the agent itself.
pub open spec fn spec_remove_agent(m: KitModel, id: Seq<char>) -> Result<(KitModel, bool), ErrorModel> {
    match spec_stop_agent(m, id) {
        Err(e) => Err(e),
        Ok((m1, was_started)) => Ok(
            (KitModel { edges: edges_without_agent(m1.edges, id), agents: m1.agents.remove(id), ..m1 }, was_started),
        ),
    }
}

/// Starting an agent: refused where it or its definition is missing; an
/// agent in its initial status is started, and the result says whether it
/// runs on a thread of its own; otherwise nothing changes.
pub open spec fn spec_start_agent(m: KitModel, id: Seq<char>) -> Result<(KitModel, Option<bool>), ErrorModel> {
    if !m.agents.contains_key(id) {
        Err(ErrorModel::AgentNotFound(id))
    } else if !m.defs.contains_key(m.agents[id].def_name) {
        Err(ErrorModel::AgentDefinitionNotFound(id))
    } else if m.agents[id].status == AgentStatus::Init {
        Ok(
            (
                KitModel { agents: m.agents.insert(id, SlotModel { status: AgentStatus::Start, ..m.agents[id] }), ..m },
                Some(m.defs[m.agents[id].def_name].native_thread),
            ),
        )
    } else {
        Ok((m, None))
    }
}

/// The port that a handle names: the handle itself, or the given port where
/// the handle is the wildcard "*".
pub open spec fn port_for(handle: Seq<char>, port: Seq<char>) -> Seq<char> {
    if handle == "*"@ {
        port
    } else {
        handle
    }
}

/// Where data that an agent sends out of `port` goes: each connection of the
/// agent whose source port is `port` or "*" and whose target agent exists,
/// with the target port (`port` itself where the target handle is "*").
pub open spec fn agent_out_routes(m: KitModel, source: Seq<char>, port: Seq<char>) -> Seq<(Seq<char>, Seq<char>)> {
    if m.edges.contains_key(source) {
        m.edges[source].filter_map(out_route(m, port))
    } else {
        Seq::empty()
    }
}

/// The target agent and port of a connection that data sent out of `port`
/// takes, if it takes it.
pub open spec fn out_route(m: KitModel, port: Seq<char>) -> spec_fn(Route) -> Option<(Seq<char>, Seq<char>)> {
    |t: Route|
        if (t.1 == port || t.1 == "*"@) && m.agents.contains_key(t.0) {
            Some((t.0, port_for(t.2, port)))
        } else {
            None
        }
}

/// Where data written to the board `name` goes through the board-out agents
/// `nodes`: each connection of each of them, in order, with the target port
/// (the board's name where the target handle is "*").
pub open spec fn board_routes(nodes: Seq<Seq<char>>, edges: Map<Seq<char>, Seq<Route>>, name: Seq<char>) -> Seq<(Seq<char>, Seq<char>)>
    decreases nodes.len(),
{
    if nodes.len() == 0 {
        Seq::empty()
    } else {
        (if edges.contains_key(nodes[0]) {
            edges[nodes[0]].map_values(|t: Route| (t.0, port_for(t.2, name)))
        } else {
            Seq::empty()
        }) + board_routes(nodes.skip(1), edges, name)
    }
}

/// Where data written to the board `name` goes.
pub open spec fn board_out_routes(m: KitModel, name: Seq<char>) -> Seq<(Seq<char>, Seq<char>)> {
    if m.board_out_agents.contains_key(name) {
        board_routes(m.board_out_agents[name], m.edges, name)
    } else {
        Seq::empty()
    }
}

/// The connections of `v` that differ from `t`.
fn routes_without(v: &Vec<(String, String, String)>, t: &(String, String, String)) -> (r: Vec<(String, String, String)>)
    ensures
        routes_view(r@) == routes_view(v@).filter(route_not(route_view(*t))),
{
    let ghost ms = routes_view(v@);
    let ghost p = route_not(route_view(*t));
    let mut out: Vec<(String, String, String)> = Vec::new();
    let mut i: usize = 0;
    proof {
        crate::seqs::lemma_filter_empty(ms, p);
        assert(routes_view(out@) =~= Seq::<Route>::empty());
    }
    while i < v.len()
        invariant
            i <= v@.len(),
            ms == routes_view(v@),
            p == route_not(route_view(*t)),
            routes_view(out@) == ms.take(i as int).filter(p),
        decreases v.len() - i,
    {
        proof {
            crate::seqs::lemma_filter_step(ms, p, i as int);
        }
        let x = &v[i];
        let same = str_eq(x.0.as_str(), t.0.as_str()) && str_eq(x.1.as_str(), t.1.as_str()) && str_eq(x.2.as_str(), t.2.as_str());
        assert(same == (ms[i as int] == route_view(*t)));
        if !same {
            out.push((x.0.clone(), x.1.clone(), x.2.clone()));
            assert(routes_view(out@) =~= ms.take(i as int).filter(p).push(ms[i as int]));
        }
        i = i + 1;
    }
    assert(ms.take(ms.len() as int) =~= ms);
    out
}

/// The connections of `v` to agents other than `id`.
fn routes_not_to(v: &Vec<(String, String, String)>, id: &str) -> (r: Vec<(String, String, String)>)
    ensures
        routes_view(r@) == routes_view(v@).filter(not_to(id@)),
{
    let ghost ms = routes_view(v@);
    let ghost p = not_to(id@);
    let mut out: Vec<(String, String, String)> = Vec::new();
    let mut i: usize = 0;
    proof {
        crate::seqs::lemma_filter_empty(ms, p);
        assert(routes_view(out@) =~= Seq::<Route>::empty());
    }
    while i < v.len()
        invariant
            i <= v@.len(),
            ms == routes_view(v@),
            p == not_to(id@),
            routes_view(out@) == ms.take(i as int).filter(p),
        decreases v.len() - i,
    {
        proof {
            crate::seqs::lemma_filter_step(ms, p, i as int);
        }
        let x = &v[i];
        if !str_eq(x.0.as_str(), id) {
            out.push((x.0.clone(), x.1.clone(), x.2.clone()));
            assert(routes_view(out@) =~= ms.take(i as int).filter(p).push(ms[i as int]));
        }
        i = i + 1;
    }
    assert(ms.take(ms.len() as int) =~= ms);
    out
}

/// Whether the connections of `v` include `t`.
fn routes_contain(v: &Vec<(String, String, String)>, t: &(String, String, String)) -> (r: bool)
    ensures
        r == routes_view(v@).contains(route_view(*t)),
{
    let mut i: usize = 0;
    while i < v.len()
        invariant
            i <= v@.len(),
            forall|k: int| 0 <= k < i ==> routes_view(v@)[k] != route_view(*t),
        decreases v.len() - i,
    {
        let x = &v[i];
        if str_eq(x.0.as_str(), t.0.as_str()) && str_eq(x.1.as_str(), t.1.as_str()) && str_eq(x.2.as_str(), t.2.as_str()) {
            assert(routes_view(v@)[i as int] == route_view(*t));
            return true;
        }
        i = i + 1;
    }
    false
}

/// Whether `s` is among the first `j` names of `ks`.
pub open spec fn among(ks: Seq<Seq<char>>, j: int, s: Seq<char>) -> bool {
    exists|t: int| 0 <= t < j && #[trigger] ks[t] == s
}

/// What to do with a configuration sent to an agent.
#[derive(Debug, Clone, Copy, PartialEq, Eq, Structural)]
pub enum ConfigDelivery {
    /// The agent is not started: apply the configuration at once.
    Apply,
    /// The agent runs: send the configuration to it.
    Send,
    /// The agent is stopping: drop the configuration.
    Drop,
}

/// What to do with input for an agent.
#[derive(Debug, Clone, Copy, PartialEq, Eq, Structural)]
pub enum InputDelivery {
    /// The agent runs: send the input to it.
    Send,
    /// The agent does not run: drop the input.
    Drop,
}

impl ASKit {
    /// The status of the agent `agent_id`, if it exists.
    pub fn agent_status(&self, agent_id: &str) -> (r: Option<AgentStatus>)
        ensures
            match r {
                Some(s) => self@.agents.contains_key(agent_id@) && s == self@.agents[agent_id@].status,
                None => !self@.agents.contains_key(agent_id@),
            },
    {
        match self.agents.get(agent_id) {
            Some(slot) => Some(slot.status),
            None => None,
        }
    }

    /// Whether the agent `agent_id` exists.
    pub fn contains_agent(&self, agent_id: &str) -> (r: bool)
        ensures
            r == self@.agents.contains_key(agent_id@),
    {
        self.agents.contains_key(agent_id)
    }

    /// Adds the agent of `node`; `created` says whether the agent itself
    /// could be made.
    pub fn add_agent(&mut self, node: &AgentFlowNode, created: bool) -> (r: Result<(), AgentError>)
        ensures
            spec_add_agent(old(self)@, node@, created) == (match r {
                Ok(_) => Ok(final(self)@),
                Err(e) => Err(e@),
            }),
            r is Err ==> final(self)@ == old(self)@,
    {
        if self.agents.contains_key(node.id.as_str()) {
            return Err(AgentError::AgentAlreadyExists(node.id.clone()));
        }
        if !created || !self.defs.contains_key(node.def_name.as_str()) {
            return Err(AgentError::AgentCreationFailed(node.id.clone()));
        }
        let slot = AgentSlot { def_name: node.def_name.clone(), status: AgentStatus::Init };
        let ghost sm = slot@;
        self.agents.insert(node.id.clone(), slot);
        assert(self@.agents =~= old(self)@.agents.insert(node@.id, sm));
        Ok(())
    }

    /// Connects as `edge` says.
    pub fn add_edge(&mut self, edge: &AgentFlowEdge) -> (r: Result<(), AgentError>)
        ensures
            spec_add_edge(old(self)@, edge@) == (match r {
                Ok(_) => Ok(final(self)@),
                Err(e) => Err(e@),
            }),
            r is Err ==> final(self)@ == old(self)@,
    {
        if !self.agents.contains_key(edge.source.as_str()) {
            return Err(AgentError::SourceAgentNotFound(edge.source.clone()));
        }
        if edge.source_handle.as_str().is_empty() {
            return Err(AgentError::EmptySourceHandle);
        }
        if edge.target_handle.as_str().is_empty() {
            return Err(AgentError::EmptyTargetHandle);
        }
        let t = (edge.target.clone(), edge.source_handle.clone(), edge.target_handle.clone());
        let ghost tm = route_view(t);
        assert(tm == route_of(edge@));
        match self.edges.remove(edge.source.as_str()) {
            Some(mut targets) => {
                if routes_contain(&targets, &t) {
                    self.edges.insert(edge.source.clone(), targets);
                    assert(self.edges.map() =~= old(self).edges.map());
                    assert(self@.edges =~= old(self)@.edges);
                    return Err(AgentError::EdgeAlreadyExists);
                }
                let ghost before = routes_view(targets@);
                targets.push(t);
                assert(routes_view(targets@) =~= before.push(tm));
                let ghost after = routes_view(targets@);
                self.edges.insert(edge.source.clone(), targets);
                assert(self@.edges =~= old(self)@.edges.insert(edge@.source, after));
            },
            None => {
                let v = vec![t];
                assert(routes_view(v@) =~= seq![tm]);
                self.edges.insert(edge.source.clone(), v);
                assert(self@.edges =~= old(self)@.edges.insert(edge@.source, seq![tm]));
            },
        }
        Ok(())
    }

    /// Disconnects what `edge` connects.
    pub fn remove_edge(&mut self, edge: &AgentFlowEdge)
        ensures
            final(self)@ == spec_remove_edge(old(self)@, edge@),
    {
        let t = (edge.target.clone(), edge.source_handle.clone(), edge.target_handle.clone());
        assert(route_view(t) == route_of(edge@));
        match self.edges.remove(edge.source.as_str()) {
            Some(targets) => {
                let kept = routes_without(&targets, &t);
                if kept.len() == 0 {
                    assert(self@.edges =~= old(self)@.edges.remove(edge@.source));
                } else {
                    let ghost km = routes_view(kept@);
                    self.edges.insert(edge.source.clone(), kept);
                    assert(self@.edges =~= old(self)@.edges.insert(edge@.source, km));
                }
            },
            None => {
                assert(self.edges.map() =~= old(self).edges.map());
                assert(self@.edges =~= old(self)@.edges);
            },
        }
    }

    /// Stops the agent `agent_id`; the result says whether it was started,
    /// so that the caller stops what runs it.
    pub fn stop_agent(&mut self, agent_id: &str) -> (r: Result<bool, AgentError>)
        ensures
            spec_stop_agent(old(self)@, agent_id@) == (match r {
                Ok(b) => Ok((final(self)@, b)),
                Err(e) => Err(e@),
            }),
            r is Err ==> final(self)@ == old(self)@,
    {
        match self.agents.get(agent_id) {
            None => Err(AgentError::AgentNotFound(to_string(agent_id))),
            Some(slot) => {
                if slot.status == AgentStatus::Start {
                    let updated = AgentSlot { def_name: slot.def_name.clone(), status: AgentStatus::Init };
                    let ghost um = updated@;
                    self.agents.insert(to_string(agent_id), updated);
                    assert(self@.agents =~= old(self)@.agents.insert(agent_id@, um));
                    Ok(true)
                } else {
                    Ok(false)
                }
            },
        }
    }

    /// Starts the agent `agent_id` if it is in its initial status, and then
    /// says whether it runs on a thread of its own; `None` where it was not
    /// in its initial status.
    pub fn start_agent(&mut self, agent_id: &str) -> (r: Result<Option<bool>, AgentError>)
        ensures
            spec_start_agent(old(self)@, agent_id@) == (match r {
                Ok(o) => Ok((final(self)@, o)),
                Err(e) => Err(e@),
            }),
            r is Err ==> final(self)@ == old(self)@,
    {
        match self.agents.get(agent_id) {
            None => Err(AgentError::AgentNotFound(to_string(agent_id))),
            Some(slot) => {
                match self.defs.get(slot.def_name.as_str()) {
                    None => Err(AgentError::AgentDefinitionNotFound(to_string(agent_id))),
                    Some(def) => {
                        if slot.status == AgentStatus::Init {
                            let native = def.native_thread;
                            let updated = AgentSlot { def_name: slot.def_name.clone(), status: AgentStatus::Start };
                            let ghost um = updated@;
                            self.agents.insert(to_string(agent_id), updated);
                            assert(self@.agents =~= old(self)@.agents.insert(agent_id@, um));
                            Ok(Some(native))
                        } else {
                            Ok(None)
                        }
                    },
                }
            },
        }
    }

    /// Removes the agent `agent_id` after stopping it, with its connections
    /// in and out; the result says whether it was started.
    pub fn remove_agent(&mut self, agent_id: &str) -> (r: Result<bool, AgentError>)
        ensures
            spec_remove_agent(old(self)@, agent_id@) == (match r {
                Ok(b) => Ok((final(self)@, b)),
                Err(e) => Err(e@),
            }),
            r is Err ==> final(self)@ == old(self)@,
    {
        let was_started = match self.stop_agent(agent_id) {
            Ok(b) => b,
            Err(e) => {
                return Err(e);
            },
        };
        let ghost m1 = self@;
        let ghost e0 = m1.edges;
        let ghost id = agent_id@;
        let n = self.edges.len();
        let ghost ps = self.edges.pairs();
        let mut keys: Vec<String> = Vec::new();
        let mut i: usize = 0;
        while i < n
            invariant
                i <= n == ps.len(),
                ps == self.edges.pairs(),
                keys@.len() == i,
                forall|t: int| 0 <= t < i ==> #[trigger] keys@[t]@ == ps[t].0,
            decreases n - i,
        {
            keys.push(self.edges.key_at(i).clone());
            i = i + 1;
        }
        let ghost ks = names_of(keys@);
        proof {
            crate::keymap::lemma_map_contains(ps, id);
            assert forall|a: int, b: int| 0 <= a < ks.len() && 0 <= b < ks.len() && a != b implies ks[a] != ks[b] by {
                if ks[a] == ks[b] {
                    crate::keymap::lemma_key_unique(ps, a, b);
                }
            }
            assert forall|s: Seq<char>| #[trigger] e0.contains_key(s) == ks.contains(s) by {
                crate::keymap::lemma_map_contains(ps, s);
                if ks.contains(s) {
                    let t = choose|t: int| 0 <= t < ks.len() && ks[t] == s;
                    assert(ps[t].0 == s);
                }
                if crate::keymap::has_key(ps, s) {
                    let t = choose|t: int| 0 <= t < ps.len() && #[trigger] ps[t].0 == s;
                    assert(ks[t] == s);
                }
            }
        }
        let mut j: usize = 0;
        proof {
            assert(self@.edges =~= Map::new(
                |s: Seq<char>| e0.contains_key(s) && (among(ks, 0, s) ==> (s != id && e0[s].filter(not_to(id)).len() > 0)),
                |s: Seq<char>| if among(ks, 0, s) { e0[s].filter(not_to(id)) } else { e0[s] },
            ));
        }
        while j < n
            invariant
                j <= n == keys@.len(),
                id == agent_id@,
                e0 == m1.edges,
                ks == names_of(keys@),
                forall|a: int, b: int| 0 <= a < ks.len() && 0 <= b < ks.len() && a != b ==> ks[a] != ks[b],
                forall|s: Seq<char>| #[trigger] e0.contains_key(s) == ks.contains(s),
                self@ == (KitModel {
                    edges: Map::new(
                        |s: Seq<char>|
                            e0.contains_key(s) && (among(ks, j as int, s) ==> (s != id && e0[s].filter(not_to(id)).len() > 0)),
                        |s: Seq<char>| if among(ks, j as int, s) { e0[s].filter(not_to(id)) } else { e0[s] },
                    ),
                    ..m1
                }),
            decreases n - j,
        {
            let key = &keys[j];
            let ghost k = key@;
            let ghost before = self@.edges;
            proof {
                assert(ks[j as int] == k);
                assert(!among(ks, j as int, k)) by {
                    if among(ks, j as int, k) {
                        let t = choose|t: int| 0 <= t < j && #[trigger] ks[t] == k;
                        assert(ks[t] == ks[j as int]);
                    }
                }
                assert(ks.contains(k));
                assert(e0.contains_key(k));
                assert(before.contains_key(k));
                assert(self.edges.map().map_values(|v: Vec<(String, String, String)>| routes_view(v@)).contains_key(k));
                assert(self.edges.map().contains_key(k));
                assert forall|s: Seq<char>| #[trigger] among(ks, j + 1, s) == (among(ks, j as int, s) || s == k) by {
                    if among(ks, j + 1, s) {
                        let t = choose|t: int| 0 <= t < j + 1 && #[trigger] ks[t] == s;
                        if t < j {
                            assert(among(ks, j as int, s));
                        }
                    }
                    if s == k {
                        assert(ks[j as int] == s);
                    }
                }
            }
            match self.edges.remove(key.as_str()) {
                Some(targets) => {
                    assert(routes_view(targets@) == before[k]);
                    assert(before[k] == e0[k]);
                    let kept = routes_not_to(&targets, agent_id);
                    if kept.len() > 0 && !str_eq(key.as_str(), agent_id) {
                        let ghost km = routes_view(kept@);
                        assert(km == e0[k].filter(not_to(id)));
                        assert(km.len() > 0);
                        self.edges.insert(key.clone(), kept);
                        assert(self@.edges =~= before.insert(k, km));
                    } else {
                        assert(k == id || e0[k].filter(not_to(id)).len() == 0);
                        assert(self@.edges =~= before.remove(k));
                    }
                },
                None => {
                    assert(false);
                },
            }
            proof {
                assert(self@.edges =~= Map::new(
                    |s: Seq<char>|
                        e0.contains_key(s) && (among(ks, j + 1, s) ==> (s != id && e0[s].filter(not_to(id)).len() > 0)),
                    |s: Seq<char>| if among(ks, j + 1, s) { e0[s].filter(not_to(id)) } else { e0[s] },
                ));
            }
            j = j + 1;
        }
        proof {
            assert forall|s: Seq<char>| #[trigger] among(ks, n as int, s) == ks.contains(s) by {
                if ks.contains(s) {
                    let t = choose|t: int| 0 <= t < ks.len() && ks[t] == s;
                    assert(among(ks, n as int, s));
                }
            }
            assert(self@.edges =~= edges_without_agent(e0, id));
        }
        self.agents.remove(agent_id);
        assert(self@.agents =~= m1.agents.remove(id));
        Ok(was_started)
    }

    /// What to do with a configuration for the agent `agent_id`.
    pub fn config_delivery(&self, agent_id: &str) -> (r: Result<ConfigDelivery, AgentError>)
        ensures
            match r {
                Ok(d) => self@.agents.contains_key(agent_id@) && d == (match self@.agents[agent_id@].status {
                    AgentStatus::Init => ConfigDelivery::Apply,
                    AgentStatus::Start => ConfigDelivery::Send,
                    AgentStatus::Stop => ConfigDelivery::Drop,
                }),
                Err(e) => !self@.agents.contains_key(agent_id@) && e@ == ErrorModel::AgentNotFound(agent_id@),
            },
    {
        match self.agents.get(agent_id) {
            None => Err(AgentError::AgentNotFound(to_string(agent_id))),
            Some(slot) => Ok(match slot.status {
                AgentStatus::Init => ConfigDelivery::Apply,
                AgentStatus::Start => ConfigDelivery::Send,
                AgentStatus::Stop => ConfigDelivery::Drop,
            }),
        }
    }

    /// What to do with input for the agent `agent_id`.
    pub fn input_delivery(&self, agent_id: &str) -> (r: Result<InputDelivery, AgentError>)
        ensures
            match r {
                Ok(d) => self@.agents.contains_key(agent_id@) && (d == InputDelivery::Send) == (self@.agents[agent_id@].status
                    == AgentStatus::Start),
                Err(e) => !self@.agents.contains_key(agent_id@) && e@ == ErrorModel::AgentNotFound(agent_id@),
            },
    {
        match self.agents.get(agent_id) {
            None => Err(AgentError::AgentNotFound(to_string(agent_id))),
            Some(slot) => Ok(
                if slot.status == AgentStatus::Start {
                    InputDelivery::Send
                } else {
                    InputDelivery::Drop
                },
            ),
        }
    }

    /// The target agents and ports of data that the agent `source_agent`
    /// sends out of `port`.
    pub fn agent_out_targets(&self, source_agent: &str, port: &str) -> (r: Vec<(String, String)>)
        ensures
            pairs_view(r@) == agent_out_routes(self@, source_agent@, port@),
    {
        let ghost m = self@;
        let ghost f = out_route(m, port@);
        let mut out: Vec<(String, String)> = Vec::new();
        match self.edges.get(source_agent) {
            None => {
                assert(pairs_view(out@) =~= Seq::<(Seq<char>, Seq<char>)>::empty());
                out
            },
            Some(targets) => {
                let ghost ts = routes_view(targets@);
                assert(ts == m.edges[source_agent@]);
                assert(ts.take(0).filter_map(f) =~= Seq::<(Seq<char>, Seq<char>)>::empty()) by {
                    assert(ts.take(0) =~= Seq::<Route>::empty());
                }
                let mut i: usize = 0;
                while i < targets.len()
                    invariant
                        i <= targets@.len(),
                        ts == routes_view(targets@),
                        m == self@,
                        f == out_route(m, port@),
                        pairs_view(out@) == ts.take(i as int).filter_map(f),
                    decreases targets.len() - i,
                {
                    proof {
                        ts.lemma_filter_map_take_succ(f, i as int);
                    }
                    let t = &targets[i];
                    let matches = str_eq(t.1.as_str(), port) || str_eq(t.1.as_str(), "*");
                    if matches && self.agents.contains_key(t.0.as_str()) {
                        let target_port = if str_eq(t.2.as_str(), "*") {
                            to_string(port)
                        } else {
                            t.2.clone()
                        };
                        out.push((t.0.clone(), target_port));
                    }
                    assert(pairs_view(out@) =~= ts.take(i + 1).filter_map(f));
                    i = i + 1;
                }
                assert(ts.take(targets@.len() as int) =~= ts);
                out
            },
        }
    }

    /// The target agents and ports of data written to the board `name`.
    pub fn board_out_targets(&self, name: &str) -> (r: Vec<(String, String)>)
        ensures
            pairs_view(r@) == board_out_routes(self@, name@),
    {
        let ghost m = self@;
        let mut out: Vec<(String, String)> = Vec::new();
        match self.board_out_agents.get(name) {
            None => {
                assert(pairs_view(out@) =~= Seq::<(Seq<char>, Seq<char>)>::empty());
                out
            },
            Some(nodes) => {
                let ghost ns = names_of(nodes@);
                assert(ns == m.board_out_agents[name@]);
                let mut i: usize = 0;
                assert(ns.skip(0) =~= ns);
                assert(pairs_view(out@) + board_routes(ns, m.edges, name@) =~= board_routes(ns, m.edges, name@));
                while i < nodes.len()
                    invariant
                        i <= nodes@.len(),
                        ns == names_of(nodes@),
                        m == self@,
                        pairs_view(out@) + board_routes(ns.skip(i as int), m.edges, name@)
                            == board_routes(ns, m.edges, name@),
                    decreases nodes.len() - i,
                {
                    let ghost done = pairs_view(out@);
                    let ghost rest = ns.skip(i as int);
                    proof {
                        assert(rest[0] == ns[i as int]);
                        assert(rest.skip(1) =~= ns.skip(i + 1));
                    }
                    match self.edges.get(nodes[i].as_str()) {
                        None => {},
                        Some(targets) => {
                            let ghost ts = routes_view(targets@);
                            let ghost part = ts.map_values(|t: Route| (t.0, port_for(t.2, name@)));
                            let mut k: usize = 0;
                            while k < targets.len()
                                invariant
                                    k <= targets@.len(),
                                    ts == routes_view(targets@),
                                    part == ts.map_values(|t: Route| (t.0, port_for(t.2, name@))),
                                    pairs_view(out@) == done + part.take(k as int),
                                    out@.len() == done.len() + k,
                                decreases targets.len() - k,
                            {
                                let t = &targets[k];
                                let target_port = if str_eq(t.2.as_str(), "*") {
                                    to_string(name)
                                } else {
                                    t.2.clone()
                                };
                                assert(part[k as int] == (t.0@, target_port@));
                                let ghost prev = pairs_view(out@);
                                let ghost x = part[k as int];
                                out.push((t.0.clone(), target_port));
                                assert(pairs_view(out@) =~= prev.push(x));
                                assert(part.take(k + 1) =~= part.take(k as int).push(x));
                                assert(done + part.take(k as int).push(x) =~= (done + part.take(k as int)).push(x));
                                k = k + 1;
                            }
                            assert(part.take(targets@.len() as int) =~= part);
                        },
                    }
                    assert(pairs_view(out@) + board_routes(ns.skip(i + 1), m.edges, name@)
                        =~= done + board_routes(rest, m.edges, name@));
                    i = i + 1;
                }
                assert(ns.skip(nodes@.len() as int) =~= Seq::<Seq<char>>::empty());
                assert(pairs_view(out@) + Seq::<(Seq<char>, Seq<char>)>::empty()
                    =~= pairs_view(out@));
                out
            },
        }
    }
}

/// Whether a name differs from `id`.
pub open spec fn name_not(id: Seq<char>) -> spec_fn(Seq<char>) -> bool {
    |x: Seq<char>| x != id
}

/// Adding a board-out agent to the board `board`, after those there.
pub open spec fn spec_register_board_out(m: KitModel, board: Seq<char>, id: Seq<char>) -> KitModel {
    KitModel {
        board_out_agents: m.board_out_agents.insert(
            board,
            if m.board_out_agents.contains_key(board) {
                m.board_out_agents[board].push(id)
            } else {
                seq![id]
            },
        ),
        ..m
    }
}

/// Taking a board-out agent off the board `board`.
pub open spec fn spec_unregister_board_out(m: KitModel, board: Seq<char>, id: Seq<char>) -> KitModel {
    if m.board_out_agents.contains_key(board) {
        KitModel {
            board_out_agents: m.board_out_agents.insert(board, m.board_out_agents[board].filter(name_not(id))),
            ..m
        }
    } else {
        m
    }
}

/// The characters of an optional string.
pub open spec fn opt_chars(o: Option<String>) -> Option<Seq<char>> {
    match o {
        Some(s) => Some(s@),
        None => None,
    }
}

/// The board that a board-in agent configured with `board_name` writes
/// data arriving on `pin` to: none where the name is unset or empty; the pin
/// where the name is "*" (none where the pin is empty); else the name.
pub open spec fn board_in_board(board_name: Option<Seq<char>>, pin: Seq<char>) -> Option<Seq<char>> {
    match board_name {
        None => None,
        Some(b) => if b.len() == 0 {
            None
        } else if b == "*"@ {
            if pin.len() == 0 {
                None
            } else {
                Some(pin)
            }
        } else {
            Some(b)
        },
    }
}

/// The board that a board-in agent configured with `board_name` writes data
/// arriving on `pin` to.
pub fn board_in_target(board_name: &Option<String>, pin: &str) -> (r: Option<String>)
    ensures
        opt_chars(r) == board_in_board(opt_chars(*board_name), pin@),
{
    match board_name {
        None => None,
        Some(b) => {
            if b.as_str().is_empty() {
                None
            } else if str_eq(b.as_str(), "*") {
                if pin.is_empty() {
                    None
                } else {
                    Some(to_string(pin))
                }
            } else {
                Some(b.clone())
            }
        },
    }
}

/// The names without `id`.
fn names_without(v: &Vec<String>, id: &str) -> (r: Vec<String>)
    ensures
        names_of(r@) == names_of(v@).filter(name_not(id@)),
{
    let ghost ms = names_of(v@);
    let ghost p = name_not(id@);
    let mut out: Vec<String> = Vec::new();
    let mut i: usize = 0;
    proof {
        crate::seqs::lemma_filter_empty(ms, p);
        assert(names_of(out@) =~= Seq::<Seq<char>>::empty());
    }
    while i < v.len()
        invariant
            i <= v@.len(),
            ms == names_of(v@),
            p == name_not(id@),
            names_of(out@) == ms.take(i as int).filter(p),
        decreases v.len() - i,
    {
        proof {
            crate::seqs::lemma_filter_step(ms, p, i as int);
        }
        if !str_eq(v[i].as_str(), id) {
            out.push(v[i].clone());
            assert(names_of(out@) =~= ms.take(i as int).filter(p).push(ms[i as int]));
        }
        i = i + 1;
    }
    assert(ms.take(ms.len() as int) =~= ms);
    out
}

/// Adding the agents of nodes one by one, each paired with whether it could
/// be made; a refused agent is left out and the rest still go in.
pub open spec fn add_agents_ignoring(m: KitModel, nodes: Seq<NodeModel>, created: Seq<bool>) -> KitModel
    decreases nodes.len(),
{
    if nodes.len() == 0 {
        m
    } else {
        let m1 = match spec_add_agent(m, nodes[0], created[0]) {
            Ok(x) => x,
            Err(_) => m,
        };
        add_agents_ignoring(m1, nodes.skip(1), created.skip(1))
    }
}

/// Connecting edges one by one; a refused edge is left out.
pub open spec fn add_edges_ignoring(m: KitModel, es: Seq<EdgeModel>) -> KitModel
    decreases es.len(),
{
    if es.len() == 0 {
        m
    } else {
        let m1 = match spec_add_edge(m, es[0]) {
            Ok(x) => x,
            Err(_) => m,
        };
        add_edges_ignoring(m1, es.skip(1))
    }
}

/// Adding a flow: refused where a flow of its name exists; else the flow is
/// stored, then the agents of its nodes and its edges are added, each
/// refusal leaving that one out.
pub open spec fn spec_add_agent_flow(m: KitModel, f: FlowModel, created: Seq<bool>) -> Result<KitModel, ErrorModel> {
    if m.flows.contains_key(f.name) {
        Err(ErrorModel::DuplicateFlowName(f.name))
    } else {
        Ok(add_edges_ignoring(add_agents_ignoring(KitModel { flows: m.flows.insert(f.name, f), ..m }, f.nodes, created), f.edges))
    }
}

/// Stopping agents one by one, ignoring refusals; with the agents that were
/// started, in order.
pub open spec fn stop_ignoring(m: KitModel, ids: Seq<Seq<char>>) -> (KitModel, Seq<Seq<char>>)
    decreases ids.len(),
{
    if ids.len() == 0 {
        (m, Seq::empty())
    } else {
        match spec_stop_agent(m, ids[0]) {
            Ok((m1, was_started)) => {
                let (m2, rest) = stop_ignoring(m1, ids.skip(1));
                (m2, if was_started { seq![ids[0]] + rest } else { rest })
            },
            Err(_) => stop_ignoring(m, ids.skip(1)),
        }
    }
}

/// Removing agents one by one until one is refused; with the agents that
/// were started and the refusal, if any.
pub open spec fn remove_all(m: KitModel, ids: Seq<Seq<char>>) -> (KitModel, Seq<Seq<char>>, Option<ErrorModel>)
    decreases ids.len(),
{
    if ids.len() == 0 {
        (m, Seq::empty(), None)
    } else {
        match spec_remove_agent(m, ids[0]) {
            Err(e) => (m, Seq::empty(), Some(e)),
            Ok((m1, was_started)) => {
                let (m2, rest, e) = remove_all(m1, ids.skip(1));
                (m2, if was_started { seq![ids[0]] + rest } else { rest }, e)
            },
        }
    }
}

/// Disconnecting edges one by one.
pub open spec fn remove_edges_all(m: KitModel, es: Seq<EdgeModel>) -> KitModel
    decreases es.len(),
{
    if es.len() == 0 {
        m
    } else {
        remove_edges_all(spec_remove_edge(m, es[0]), es.skip(1))
    }
}

/// The identifiers of nodes.
pub open spec fn node_ids(ns: Seq<NodeModel>) -> Seq<Seq<char>> {
    ns.map_values(|n: NodeModel| n.id)
}

/// Removing the flow `name`: refused where there is none; else the flow
/// goes, its enabled agents are stopped, its agents are removed up to the
/// first refusal, and, where none was refused, its edges are disconnected.
/// With the agents that were started.
pub open spec fn spec_remove_agent_flow(m: KitModel, name: Seq<char>) -> (KitModel, Seq<Seq<char>>, Result<(), ErrorModel>) {
    if !m.flows.contains_key(name) {
        (m, Seq::empty(), Err(ErrorModel::FlowNotFound(name)))
    } else {
        let f = m.flows[name];
        let m1 = KitModel { flows: m.flows.remove(name), ..m };
        let (m2, s1) = stop_ignoring(m1, enabled_ids(f.nodes));
        let (m3, s2, e) = remove_all(m2, node_ids(f.nodes));
        match e {
            Some(e) => (m3, s1 + s2, Err(e)),
            None => (remove_edges_all(m3, f.edges), s1 + s2, Ok(())),
        }
    }
}

/// Starting agents one by one, ignoring refusals; with each agent that was
/// started and whether it runs on a thread of its own.
pub open spec fn start_ignoring(m: KitModel, ids: Seq<Seq<char>>) -> (KitModel, Seq<(Seq<char>, bool)>)
    decreases ids.len(),
{
    if ids.len() == 0 {
        (m, Seq::empty())
    } else {
        match spec_start_agent(m, ids[0]) {
            Ok((m1, Some(native))) => {
                let (m2, rest) = start_ignoring(m1, ids.skip(1));
                (m2, seq![(ids[0], native)] + rest)
            },
            Ok((m1, None)) => start_ignoring(m1, ids.skip(1)),
            Err(_) => start_ignoring(m, ids.skip(1)),
        }
    }
}

/// Adding a node to the flow `name` and its agent: refused where there is no
/// such flow; else the node joins the flow, and then its agent is added,
/// which may be refused.
pub open spec fn spec_add_agent_flow_node(m: KitModel, name: Seq<char>, node: NodeModel, created: bool) -> (KitModel, Result<(), ErrorModel>) {
    if !m.flows.contains_key(name) {
        (m, Err(ErrorModel::FlowNotFound(name)))
    } else {
        let m1 = KitModel { flows: m.flows.insert(name, FlowModel { nodes: m.flows[name].nodes.push(node), ..m.flows[name] }), ..m };
        match spec_add_agent(m1, node, created) {
            Ok(m2) => (m2, Ok(())),
            Err(e) => (m1, Err(e)),
        }
    }
}

/// Adding an edge to the flow `name` and connecting it: refused where there
/// is no such flow; else the edge joins the flow, and then it is connected,
/// which may be refused.
pub open spec fn spec_add_agent_flow_edge(m: KitModel, name: Seq<char>, edge: EdgeModel) -> (KitModel, Result<(), ErrorModel>) {
    if !m.flows.contains_key(name) {
        (m, Err(ErrorModel::FlowNotFound(name)))
    } else {
        let m1 = KitModel { flows: m.flows.insert(name, FlowModel { edges: m.flows[name].edges.push(edge), ..m.flows[name] }), ..m };
        match spec_add_edge(m1, edge) {
            Ok(m2) => (m2, Ok(())),
            Err(e) => (m1, Err(e)),
        }
    }
}

/// Removing a node from the flow `name` and its agent: refused where there is
/// no such flow; else the node leaves the flow, and then its agent is
/// removed, which may be refused. With whether the agent was started.
pub open spec fn spec_remove_agent_flow_node(m: KitModel, name: Seq<char>, node_id: Seq<char>) -> (KitModel, Result<bool, ErrorModel>) {
    if !m.flows.contains_key(name) {
        (m, Err(ErrorModel::FlowNotFound(name)))
    } else {
        let m1 = KitModel {
            flows: m.flows.insert(name, FlowModel { nodes: m.flows[name].nodes.filter(node_not(node_id)), ..m.flows[name] }),
            ..m
        };
        match spec_remove_agent(m1, node_id) {
            Ok((m2, was_started)) => (m2, Ok(was_started)),
            Err(e) => (m1, Err(e)),
        }
    }
}

/// Removing the edge `edge_id` from the flow `name` and disconnecting it:
/// refused where there is no such flow or edge.
pub open spec fn spec_remove_agent_flow_edge(m: KitModel, name: Seq<char>, edge_id: Seq<char>) -> (KitModel, Result<(), ErrorModel>) {
    if !m.flows.contains_key(name) {
        (m, Err(ErrorModel::FlowNotFound(name)))
    } else {
        match crate::flow::first_edge(m.flows[name].edges, edge_id) {
            None => (m, Err(ErrorModel::EdgeNotFound(edge_id))),
            Some(e) => {
                let m1 = KitModel {
                    flows: m.flows.insert(name, FlowModel { edges: m.flows[name].edges.filter(edge_not(edge_id)), ..m.flows[name] }),
                    ..m
                };
                (spec_remove_edge(m1, e), Ok(()))
            },
        }
    }
}

/// The model of a result without a value.
pub open spec fn unit_result(r: Result<(), AgentError>) -> Result<(), ErrorModel> {
    match r {
        Ok(_) => Ok(()),
        Err(e) => Err(e@),
    }
}

impl ASKit {
    /// Adds the agent `agent_id` to the board `board_name`.
    pub fn register_board_out_agent(&mut self, board_name: &str, agent_id: &str)
        ensures
            final(self)@ == spec_register_board_out(old(self)@, board_name@, agent_id@),
    {
        let list = match self.board_out_agents.remove(board_name) {
            Some(mut nodes) => {
                let ghost before = names_of(nodes@);
                nodes.push(to_string(agent_id));
                assert(names_of(nodes@) =~= before.push(agent_id@));
                nodes
            },
            None => {
                let v = vec![to_string(agent_id)];
                assert(names_of(v@) =~= seq![agent_id@]);
                v
            },
        };
        let ghost lm = names_of(list@);
        self.board_out_agents.insert(to_string(board_name), list);
        assert(self@.board_out_agents =~= old(self)@.board_out_agents.insert(board_name@, lm));
    }

    /// Takes the agent `agent_id` off the board `board_name`.
    pub fn unregister_board_out_agent(&mut self, board_name: &str, agent_id: &str)
        ensures
            final(self)@ == spec_unregister_board_out(old(self)@, board_name@, agent_id@),
    {
        match self.board_out_agents.get(board_name) {
            Some(nodes) => {
                let kept = names_without(nodes, agent_id);
                let ghost km = names_of(kept@);
                self.board_out_agents.insert(to_string(board_name), kept);
                assert(self@.board_out_agents =~= old(self)@.board_out_agents.insert(board_name@, km));
            },
            None => {},
        }
    }

    /// Moves the agent `agent_id` from the board `old_board` to the board
    /// `new_board` where the two differ.
    pub fn change_board_out_agent(&mut self, old_board: &Option<String>, new_board: &Option<String>, agent_id: &str)
        ensures
            final(self)@ == (if opt_chars(*old_board) == opt_chars(*new_board) {
                old(self)@
            } else {
                let m1 = match old_board {
                    Some(b) => spec_unregister_board_out(old(self)@, b@, agent_id@),
                    None => old(self)@,
                };
                match new_board {
                    Some(b) => spec_register_board_out(m1, b@, agent_id@),
                    None => m1,
                }
            }),
    {
        let same = match (old_board, new_board) {
            (Some(a), Some(b)) => str_eq(a.as_str(), b.as_str()),
            (None, None) => true,
            _ => false,
        };
        if same {
            return;
        }
        match old_board {
            Some(b) => self.unregister_board_out_agent(b.as_str(), agent_id),
            None => {},
        }
        match new_board {
            Some(b) => self.register_board_out_agent(b.as_str(), agent_id),
            None => {},
        }
    }

    /// Keeps `data` as the last data written to the board `name`.
    pub fn set_board_data(&mut self, name: &str, data: AgentData)
        ensures
            final(self)@ == (KitModel { board_data: old(self)@.board_data.insert(name@, (data.kind@, data.value@)), ..old(self)@ }),
    {
        let ghost dm = (data.kind@, data.value@);
        self.board_data.insert(to_string(name), data);
        assert(self@.board_data =~= old(self)@.board_data.insert(name@, dm));
    }

    /// Adds `agent_flow` with its agents and edges; `created` says for each
    /// node whether its agent could be made.
    pub fn add_agent_flow(&mut self, agent_flow: &AgentFlow, created: &Vec<bool>) -> (r: Result<(), AgentError>)
        requires
            created@.len() == agent_flow@.nodes.len(),
        ensures
            spec_add_agent_flow(old(self)@, agent_flow@, created@) == (match r {
                Ok(_) => Ok(final(self)@),
                Err(e) => Err(e@),
            }),
            r is Err ==> final(self)@ == old(self)@,
    {
        let ghost fm = agent_flow@;
        if self.flows.contains_key(agent_flow.name()) {
            return Err(AgentError::DuplicateFlowName(to_string(agent_flow.name())));
        }
        let copy = agent_flow.duplicate();
        self.flows.insert(to_string(agent_flow.name()), copy);
        assert(self@.flows =~= old(self)@.flows.insert(fm.name, fm));
        let ghost m0 = self@;
        let nodes = agent_flow.nodes();
        let ghost ns = node_models(nodes@);
        let ghost cs = created@;
        let mut i: usize = 0;
        assert(ns.skip(0) =~= ns);
        assert(cs.skip(0) =~= cs);
        while i < nodes.len()
            invariant
                i <= nodes@.len() == cs.len(),
                ns == node_models(nodes@),
                cs == created@,
                add_agents_ignoring(self@, ns.skip(i as int), cs.skip(i as int)) == add_agents_ignoring(m0, ns, cs),
            decreases nodes.len() - i,
        {
            proof {
                assert(ns.skip(i as int)[0] == ns[i as int]);
                assert(cs.skip(i as int)[0] == cs[i as int]);
                assert(ns.skip(i as int).skip(1) =~= ns.skip(i + 1));
                assert(cs.skip(i as int).skip(1) =~= cs.skip(i + 1));
            }
            let _ = self.add_agent(&nodes[i], created[i]);
            i = i + 1;
        }
        let ghost m1 = self@;
        assert(ns.skip(i as int) =~= Seq::<NodeModel>::empty());
        let edges = agent_flow.edges();
        let ghost es = edge_models(edges@);
        let mut j: usize = 0;
        assert(es.skip(0) =~= es);
        while j < edges.len()
            invariant
                j <= edges@.len(),
                es == edge_models(edges@),
                add_edges_ignoring(self@, es.skip(j as int)) == add_edges_ignoring(m1, es),
            decreases edges.len() - j,
        {
            proof {
                assert(es.skip(j as int)[0] == es[j as int]);
                assert(es.skip(j as int).skip(1) =~= es.skip(j + 1));
            }
            let _ = self.add_edge(&edges[j]);
            j = j + 1;
        }
        assert(es.skip(j as int) =~= Seq::<EdgeModel>::empty());
        Ok(())
    }

    /// Removes the flow `flow_name`: stops its enabled agents, removes its
    /// agents and disconnects its edges. The agents that were started are
    /// added to `stopped`, so that the caller stops what runs them.
    pub fn remove_agent_flow(&mut self, flow_name: &str, stopped: &mut Vec<String>) -> (r: Result<(), AgentError>)
        ensures
            final(self)@ == spec_remove_agent_flow(old(self)@, flow_name@).0,
            names_of(final(stopped)@) == names_of(old(stopped)@) + spec_remove_agent_flow(old(self)@, flow_name@).1,
            unit_result(r) == spec_remove_agent_flow(old(self)@, flow_name@).2,
    {
        let ghost m = self@;
        let flow = match self.flows.remove(flow_name) {
            Some(f) => f,
            None => {
                assert(self.flows.map() =~= old(self).flows.map());
                assert(self@.flows =~= old(self)@.flows);
                assert(names_of(stopped@) =~= names_of(old(stopped)@) + Seq::<Seq<char>>::empty());
                return Err(AgentError::FlowNotFound(to_string(flow_name)));
            },
        };
        let ghost fm = flow@;
        assert(self@.flows =~= m.flows.remove(flow_name@));
        let ghost m1 = self@;
        let ghost s0 = names_of(stopped@);
        let ids = flow.enabled_node_ids();
        let ghost en = names_of(ids@);
        assert(en == enabled_ids(fm.nodes));
        let mut i: usize = 0;
        assert(en.skip(0) =~= en);
        assert(names_of(stopped@) =~= s0 + Seq::<Seq<char>>::empty());
        while i < ids.len()
            invariant
                i <= ids@.len(),
                en == names_of(ids@),
                ({
                    let (mf, sf) = stop_ignoring(self@, en.skip(i as int));
                    mf == stop_ignoring(m1, en).0 && names_of(stopped@) + sf == s0 + stop_ignoring(m1, en).1
                }),
            decreases ids.len() - i,
        {
            let ghost before = self@;
            let ghost sb = names_of(stopped@);
            proof {
                assert(en.skip(i as int)[0] == en[i as int]);
                assert(en.skip(i as int).skip(1) =~= en.skip(i + 1));
            }
            match self.stop_agent(ids[i].as_str()) {
                Ok(true) => {
                    stopped.push(ids[i].clone());
                    proof {
                        let rest = stop_ignoring(self@, en.skip(i + 1)).1;
                        assert(names_of(stopped@) =~= sb.push(en[i as int]));
                        assert(sb.push(en[i as int]) + rest =~= sb + (seq![en[i as int]] + rest));
                    }
                },
                _ => {},
            }
            i = i + 1;
        }
        assert(en.skip(i as int) =~= Seq::<Seq<char>>::empty());
        let ghost m2 = self@;
        let ghost s1 = stop_ignoring(m1, en).1;
        let nodes = flow.nodes();
        let ghost ni = node_ids(node_models(nodes@));
        assert(ni == node_ids(fm.nodes));
        let mut k: usize = 0;
        assert(ni.skip(0) =~= ni);
        while k < nodes.len()
            invariant
                k <= nodes@.len(),
                ni == node_ids(node_models(nodes@)),
                m == old(self)@,
                m.flows.contains_key(flow_name@),
                fm == m.flows[flow_name@],
                m1 == (KitModel { flows: m.flows.remove(flow_name@), ..m }),
                en == enabled_ids(fm.nodes),
                m2 == stop_ignoring(m1, en).0,
                s1 == stop_ignoring(m1, en).1,
                s0 == names_of(old(stopped)@),
                ni == node_ids(fm.nodes),
                ({
                    let (mf, sf, ef) = remove_all(self@, ni.skip(k as int));
                    &&& mf == remove_all(m2, ni).0
                    &&& names_of(stopped@) + sf == s0 + s1 + remove_all(m2, ni).1
                    &&& ef == remove_all(m2, ni).2
                }),
            decreases nodes.len() - k,
        {
            let ghost before = self@;
            let ghost sb = names_of(stopped@);
            proof {
                assert(ni.skip(k as int)[0] == ni[k as int]);
                assert(ni[k as int] == nodes@[k as int]@.id);
                assert(ni.skip(k as int).skip(1) =~= ni.skip(k + 1));
            }
            match self.remove_agent(nodes[k].id.as_str()) {
                Ok(was_started) => {
                    if was_started {
                        stopped.push(nodes[k].id.clone());
                        proof {
                            let rest = remove_all(self@, ni.skip(k + 1)).1;
                            assert(names_of(stopped@) =~= sb.push(ni[k as int]));
                            assert(sb.push(ni[k as int]) + rest =~= sb + (seq![ni[k as int]] + rest));
                        }
                    }
                },
                Err(e) => {
                    proof {
                        assert(spec_remove_agent(before, ni[k as int]) == Err::<(KitModel, bool), ErrorModel>(e@));
                        assert(remove_all(before, ni.skip(k as int)) == (before, Seq::<Seq<char>>::empty(), Some(e@)));
                        assert(names_of(stopped@) + Seq::<Seq<char>>::empty() =~= names_of(stopped@));
                        assert(s0 + s1 + remove_all(m2, ni).1 =~= s0 + (s1 + remove_all(m2, ni).1));
                    }
                    return Err(e);
                },
            }
            k = k + 1;
        }
        proof {
            assert(ni.skip(k as int) =~= Seq::<Seq<char>>::empty());
            assert(names_of(stopped@) + Seq::<Seq<char>>::empty() =~= names_of(stopped@));
            assert(s0 + s1 + remove_all(m2, ni).1 =~= s0 + (s1 + remove_all(m2, ni).1));
        }
        let ghost m3 = self@;
        let edges = flow.edges();
        let ghost es = edge_models(edges@);
        let mut j: usize = 0;
        assert(es.skip(0) =~= es);
        while j < edges.len()
            invariant
                j <= edges@.len(),
                es == edge_models(edges@),
                remove_edges_all(self@, es.skip(j as int)) == remove_edges_all(m3, es),
            decreases edges.len() - j,
        {
            proof {
                assert(es.skip(j as int)[0] == es[j as int]);
                assert(es.skip(j as int).skip(1) =~= es.skip(j + 1));
            }
            self.remove_edge(&edges[j]);
            j = j + 1;
        }
        assert(es.skip(j as int) =~= Seq::<EdgeModel>::empty());
        Ok(())
    }

    /// Starts the enabled agents of the flow `name`, and returns each agent
    /// that was started with whether it runs on a thread of its own.
    pub fn start_agent_flow(&mut self, name: &str) -> (r: Result<Vec<(String, bool)>, AgentError>)
        ensures
            !old(self)@.flows.contains_key(name@) ==> (r matches Err(e) && e@ == ErrorModel::FlowNotFound(name@)
                && final(self)@ == old(self)@),
            old(self)@.flows.contains_key(name@) ==> (r matches Ok(v) && ({
                let (mf, started) = start_ignoring(old(self)@, enabled_ids(old(self)@.flows[name@].nodes));
                &&& final(self)@ == mf
                &&& v@.map_values(|p: (String, bool)| (p.0@, p.1)) == started
            })),
    {
        let ids = match self.flows.get(name) {
            Some(flow) => flow.enabled_node_ids(),
            None => {
                return Err(AgentError::FlowNotFound(to_string(name)));
            },
        };
        let ghost m0 = self@;
        let ghost en = names_of(ids@);
        let mut out: Vec<(String, bool)> = Vec::new();
        let mut i: usize = 0;
        assert(en.skip(0) =~= en);
        assert(out@.map_values(|p: (String, bool)| (p.0@, p.1)) + start_ignoring(m0, en).1 =~= start_ignoring(m0, en).1);
        while i < ids.len()
            invariant
                i <= ids@.len(),
                en == names_of(ids@),
                ({
                    let (mf, sf) = start_ignoring(self@, en.skip(i as int));
                    mf == start_ignoring(m0, en).0 && out@.map_values(|p: (String, bool)| (p.0@, p.1)) + sf == start_ignoring(m0, en).1
                }),
            decreases ids.len() - i,
        {
            let ghost ob = out@.map_values(|p: (String, bool)| (p.0@, p.1));
            proof {
                assert(en.skip(i as int)[0] == en[i as int]);
                assert(en.skip(i as int).skip(1) =~= en.skip(i + 1));
            }
            match self.start_agent(ids[i].as_str()) {
                Ok(Some(native)) => {
                    out.push((ids[i].clone(), native));
                    proof {
                        let rest = start_ignoring(self@, en.skip(i + 1)).1;
                        assert(out@.map_values(|p: (String, bool)| (p.0@, p.1)) =~= ob.push((en[i as int], native)));
                        assert(ob.push((en[i as int], native)) + rest =~= ob + (seq![(en[i as int], native)] + rest));
                    }
                },
                _ => {},
            }
            i = i + 1;
        }
        assert(en.skip(i as int) =~= Seq::<Seq<char>>::empty());
        assert(out@.map_values(|p: (String, bool)| (p.0@, p.1)) + Seq::<(Seq<char>, bool)>::empty() =~= out@.map_values(|p: (String, bool)| (p.0@, p.1)));
        Ok(out)
    }

    /// Adds `node` to the flow `flow_name` and its agent; `created` says
    /// whether the agent could be made.
    pub fn add_agent_flow_node(&mut self, flow_name: &str, node: &AgentFlowNode, created: bool) -> (r: Result<(), AgentError>)
        ensures
            spec_add_agent_flow_node(old(self)@, flow_name@, node@, created) == (final(self)@, unit_result(r)),
    {
        let mut flow = match self.flows.remove(flow_name) {
            Some(f) => f,
            None => {
                assert(self@.flows =~= old(self)@.flows);
                return Err(AgentError::FlowNotFound(to_string(flow_name)));
            },
        };
        flow.add_node(node.duplicate());
        let ghost fm = flow@;
        self.flows.insert(to_string(flow_name), flow);
        assert(self@.flows =~= old(self)@.flows.insert(flow_name@, fm));
        self.add_agent(node, created)
    }

    /// Adds `edge` to the flow `flow_name` and connects it.
    pub fn add_agent_flow_edge(&mut self, flow_name: &str, edge: &AgentFlowEdge) -> (r: Result<(), AgentError>)
        ensures
            spec_add_agent_flow_edge(old(self)@, flow_name@, edge@) == (final(self)@, unit_result(r)),
    {
        let mut flow = match self.flows.remove(flow_name) {
            Some(f) => f,
            None => {
                assert(self@.flows =~= old(self)@.flows);
                return Err(AgentError::FlowNotFound(to_string(flow_name)));
            },
        };
        flow.add_edge(edge.duplicate());
        let ghost fm = flow@;
        self.flows.insert(to_string(flow_name), flow);
        assert(self@.flows =~= old(self)@.flows.insert(flow_name@, fm));
        self.add_edge(edge)
    }

    /// Removes the node `node_id` from the flow `flow_name` and its agent;
    /// the result says whether the agent was started.
    pub fn remove_agent_flow_node(&mut self, flow_name: &str, node_id: &str) -> (r: Result<bool, AgentError>)
        ensures
            spec_remove_agent_flow_node(old(self)@, flow_name@, node_id@) == (final(self)@, match r {
                Ok(b) => Ok(b),
                Err(e) => Err(e@),
            }),
    {
        let mut flow = match self.flows.remove(flow_name) {
            Some(f) => f,
            None => {
                assert(self@.flows =~= old(self)@.flows);
                return Err(AgentError::FlowNotFound(to_string(flow_name)));
            },
        };
        flow.remove_node(node_id);
        let ghost fm = flow@;
        self.flows.insert(to_string(flow_name), flow);
        assert(self@.flows =~= old(self)@.flows.insert(flow_name@, fm));
        self.remove_agent(node_id)
    }

    /// Removes the edge `edge_id` from the flow `flow_name` and disconnects
    /// it.
    pub fn remove_agent_flow_edge(&mut self, flow_name: &str, edge_id: &str) -> (r: Result<(), AgentError>)
        ensures
            spec_remove_agent_flow_edge(old(self)@, flow_name@, edge_id@) == (final(self)@, unit_result(r)),
    {
        let mut flow = match self.flows.remove(flow_name) {
            Some(f) => f,
            None => {
                assert(self@.flows =~= old(self)@.flows);
                return Err(AgentError::FlowNotFound(to_string(flow_name)));
            },
        };
        let ghost before = flow@;
        let removed = flow.remove_edge(edge_id);
        match removed {
            None => {
                proof {
                    lemma_first_edge_none(before.edges, edge_id@);
                    crate::seqs::lemma_filter_all(before.edges, edge_not(edge_id@));
                    assert(flow@ == before);
                }
                self.flows.insert(to_string(flow_name), flow);
                assert(self@.flows =~= old(self)@.flows);
                Err(AgentError::EdgeNotFound(to_string(edge_id)))
            },
            Some(edge) => {
                let ghost fm = flow@;
                self.flows.insert(to_string(flow_name), flow);
                assert(self@.flows =~= old(self)@.flows.insert(flow_name@, fm));
                self.remove_edge(&edge);
                Ok(())
            },
        }
    }
}

/// Where no edge has the identifier, none is first.
pub proof fn lemma_first_edge_none(es: Seq<EdgeModel>, id: Seq<char>)
    requires
        crate::flow::first_edge(es, id) is None,
    ensures
        forall|i: int| 0 <= i < es.len() ==> edge_not(id)(#[trigger] es[i]),
    decreases es.len(),
{
    if es.len() > 0 {
        lemma_first_edge_none(es.drop_last(), id);
        assert forall|i: int| 0 <= i < es.len() implies edge_not(id)(#[trigger] es[i]) by {
            if i < es.len() - 1 {
                assert(es.drop_last()[i] == es[i]);
            }
        }
    }
}

/// Every source agent in the connections has at least one connection.
pub open spec fn connections_nonempty(m: KitModel) -> bool {
    forall|s: Seq<char>| #[trigger] m.edges.contains_key(s) ==> m.edges[s].len() > 0
}

/// Adding an edge keeps every connection list non-empty.
pub proof fn lemma_add_edge_keeps_connections_nonempty(m: KitModel, e: EdgeModel)
    requires
        connections_nonempty(m),
        spec_add_edge(m, e) is Ok,
    ensures
        connections_nonempty(spec_add_edge(m, e)->Ok_0),
{
}

/// Removing an edge keeps every connection list non-empty.
pub proof fn lemma_remove_edge_keeps_connections_nonempty(m: KitModel, e: EdgeModel)
    requires
        connections_nonempty(m),
    ensures
        connections_nonempty(spec_remove_edge(m, e)),
{
}

/// Removing an agent keeps every connection list non-empty.
pub proof fn lemma_remove_agent_keeps_connections_nonempty(m: KitModel, id: Seq<char>)
    requires
        connections_nonempty(m),
        spec_remove_agent(m, id) is Ok,
    ensures
        connections_nonempty(spec_remove_agent(m, id)->Ok_0.0),
{
}

/// The connections from a source agent: none where it has no list.
pub open spec fn connections_of(m: KitModel, s: Seq<char>) -> Seq<Route> {
    if m.edges.contains_key(s) {
        m.edges[s]
    } else {
        Seq::empty()
    }
}

/// Removing an edge takes exactly its connection out of the source agent's
/// list: a connection is in the new list if and only if it was in the old
/// one and differs from the edge's. The lists of the other source agents,
/// the agents, the boards, the definitions and the flows stay as they were.
pub proof fn lemma_remove_edge_removes_exactly(m: KitModel, e: EdgeModel)
    ensures
        forall|x: Route|
            #[trigger] connections_of(spec_remove_edge(m, e), e.source).contains(x) <==> (connections_of(m, e.source).contains(x)
                && x != route_of(e)),
        forall|s: Seq<char>|
            s != e.source ==> (#[trigger] spec_remove_edge(m, e).edges.contains_key(s) <==> m.edges.contains_key(s))
                && connections_of(spec_remove_edge(m, e), s) == connections_of(m, s),
        spec_remove_edge(m, e).agents == m.agents,
        spec_remove_edge(m, e).board_out_agents == m.board_out_agents,
        spec_remove_edge(m, e).board_data == m.board_data,
        spec_remove_edge(m, e).defs == m.defs,
        spec_remove_edge(m, e).flows == m.flows,
{
    let t = route_of(e);
    let m1 = spec_remove_edge(m, e);
    if m.edges.contains_key(e.source) {
        let l = m.edges[e.source];
        let kept = l.filter(route_not(t));
        assert(connections_of(m1, e.source) == kept);
        assert forall|x: Route| #[trigger] kept.contains(x) <==> (l.contains(x) && x != t) by {
            if kept.contains(x) {
                l.lemma_filter_contains_rev(route_not(t), x);
                let i = choose|i: int| 0 <= i < kept.len() && kept[i] == x;
                l.lemma_filter_pred(route_not(t), i);
            }
            if l.contains(x) && x != t {
                let i = choose|i: int| 0 <= i < l.len() && l[i] == x;
                l.lemma_filter_contains(route_not(t), i);
            }
        }
    }
}

/// Where the edge's connection stands once in the source agent's list, at
/// `i`, removing the edge leaves that list without that one entry and the
/// others in their order.
pub proof fn lemma_remove_edge_keeps_order(m: KitModel, e: EdgeModel, i: int)
    requires
        0 <= i < connections_of(m, e.source).len(),
        connections_of(m, e.source)[i] == route_of(e),
        forall|j: int|
            0 <= j < connections_of(m, e.source).len() && j != i ==> #[trigger] connections_of(m, e.source)[j] != route_of(e),
    ensures
        connections_of(spec_remove_edge(m, e), e.source) == connections_of(m, e.source).remove(i),
{
    let t = route_of(e);
    let p = route_not(t);
    let l = m.edges[e.source];
    let a = l.take(i);
    let b = l.skip(i + 1);
    assert(l =~= a + seq![t] + b);
    assert forall|j: int| 0 <= j < a.len() implies p(#[trigger] a[j]) by {
        assert(a[j] == l[j]);
    }
    assert forall|j: int| 0 <= j < b.len() implies p(#[trigger] b[j]) by {
        assert(b[j] == l[i + 1 + j]);
    }
    crate::seqs::lemma_filter_all(a, p);
    crate::seqs::lemma_filter_all(b, p);
    Seq::filter_distributes_over_add(a + seq![t], b, p);
    Seq::filter_distributes_over_add(a, seq![t], p);
    Seq::<Route>::empty().lemma_filter_push(t, p);
    assert(seq![t] =~= Seq::<Route>::empty().push(t));
    reveal(Seq::filter);
    assert(Seq::<Route>::empty().filter(p) =~= Seq::<Route>::empty());
    assert(l.filter(p) =~= a + b);
    assert(l.remove(i) =~= a + b);
    if (a + b).len() == 0 {
        assert(connections_of(spec_remove_edge(m, e), e.source) =~= Seq::<Route>::empty());
    }
}

/// No source agent has the same connection twice.
pub open spec fn connections_distinct(m: KitModel) -> bool {
    forall|s: Seq<char>, i: int, j: int|
        m.edges.contains_key(s) && 0 <= i < j < m.edges[s].len() ==> #[trigger] m.edges[s][i] != #[trigger] m.edges[s][j]
}

/// Adding an edge keeps every source agent's connections distinct.
pub proof fn lemma_add_edge_keeps_connections_distinct(m: KitModel, e: EdgeModel)
    requires
        connections_distinct(m),
        spec_add_edge(m, e) is Ok,
    ensures
        connections_distinct(spec_add_edge(m, e)->Ok_0),
{
    let m1 = spec_add_edge(m, e)->Ok_0;
    if m.edges.contains_key(e.source) {
        let l = m.edges[e.source];
        assert forall|s: Seq<char>, i: int, j: int|
            m1.edges.contains_key(s) && 0 <= i < j < m1.edges[s].len() implies #[trigger] m1.edges[s][i]
            != #[trigger] m1.edges[s][j] by {
            if s == e.source && j == l.len() {
                assert(l[i] == m1.edges[s][i]);
                if l[i] == route_of(e) {
                    assert(l.contains(route_of(e)));
                }
            }
        }
    }
}

/// Removing an edge keeps every source agent's connections distinct.
pub proof fn lemma_remove_edge_keeps_connections_distinct(m: KitModel, e: EdgeModel)
    requires
        connections_distinct(m),
    ensures
        connections_distinct(spec_remove_edge(m, e)),
{
    let t = route_of(e);
    let m1 = spec_remove_edge(m, e);
    if m.edges.contains_key(e.source) {
        let l = m.edges[e.source];
        let nl = connections_of(m1, e.source);
        if l.contains(t) {
            let i = choose|i: int| 0 <= i < l.len() && l[i] == t;
            assert forall|j: int| 0 <= j < l.len() && j != i implies #[trigger] l[j] != t by {
                if j < i {
                    assert(l[j] != l[i]);
                } else {
                    assert(l[i] != l[j]);
                }
            }
            lemma_remove_edge_keeps_order(m, e, i);
            l.remove_ensures(i);
            assert forall|s: Seq<char>, a: int, b: int|
                m1.edges.contains_key(s) && 0 <= a < b < m1.edges[s].len() implies #[trigger] m1.edges[s][a]
                != #[trigger] m1.edges[s][b] by {
                if s == e.source {
                    let a0 = if a < i { a } else { a + 1 };
                    let b0 = if b < i { b } else { b + 1 };
                    assert(nl[a] == l[a0] && nl[b] == l[b0]);
                    assert(l[a0] != l[b0]);
                }
            }
        } else {
            assert forall|j: int| 0 <= j < l.len() implies route_not(t)(#[trigger] l[j]) by {
                if l[j] == t {
                    assert(l.contains(t));
                }
            }
            crate::seqs::lemma_filter_all(l, route_not(t));
        }
    }
}

/// Removing an edge that was just added gives back the state before.
pub proof fn lemma_remove_edge_undoes_add_edge(m: KitModel, e: EdgeModel)
    requires
        connections_nonempty(m),
        spec_add_edge(m, e) is Ok,
    ensures
        spec_remove_edge(spec_add_edge(m, e)->Ok_0, e) == m,
{
    let t = route_of(e);
    let m1 = spec_add_edge(m, e)->Ok_0;
    if m.edges.contains_key(e.source) {
        let l = m.edges[e.source];
        assert(!l.contains(t));
        assert forall|i: int| 0 <= i < l.len() implies route_not(t)(#[trigger] l[i]) by {
            if l[i] == t {
                assert(l.contains(t));
            }
        }
        crate::seqs::lemma_filter_all(l, route_not(t));
        let lp = l.push(t);
        assert(lp.take(l.len() as int) =~= l);
        assert(lp.take(lp.len() as int) =~= lp);
        crate::seqs::lemma_filter_step(lp, route_not(t), l.len() as int);
        assert(lp.filter(route_not(t)) == l);
        assert(m1.edges[e.source] == lp);
        assert(spec_remove_edge(m1, e).edges =~= m.edges);
    } else {
        let lp = seq![t];
        assert(lp.take(0) =~= Seq::<Route>::empty());
        assert(lp.take(1) =~= lp);
        crate::seqs::lemma_filter_empty(lp, route_not(t));
        crate::seqs::lemma_filter_step(lp, route_not(t), 0);
        assert(lp.filter(route_not(t)).len() == 0);
        assert(spec_remove_edge(m1, e).edges =~= m.edges);
    }
}

/// After an agent is removed, it is gone, it has no connections, and no
/// connection leads to it.
pub proof fn lemma_removed_agent_disconnected(m: KitModel, id: Seq<char>)
    requires
        spec_remove_agent(m, id) is Ok,
    ensures
        ({
            let m1 = spec_remove_agent(m, id)->Ok_0.0;
            &&& !m1.agents.contains_key(id)
            &&& !m1.edges.contains_key(id)
            &&& forall|s: Seq<char>, k: int|
                m1.edges.contains_key(s) && 0 <= k < m1.edges[s].len() ==> (#[trigger] m1.edges[s][k]).0 != id
        }),
{
    let m1 = spec_remove_agent(m, id)->Ok_0.0;
    assert forall|s: Seq<char>, k: int| m1.edges.contains_key(s) && 0 <= k < m1.edges[s].len() implies (#[trigger] m1.edges[s][k]).0
        != id by {
        let e0 = spec_stop_agent(m, id)->Ok_0.0.edges;
        e0[s].lemma_filter_pred(not_to(id), k);
    }
}

/// Every target of data that an agent sends out is an agent of the kit.
pub proof fn lemma_agent_out_targets_exist(m: KitModel, source: Seq<char>, port: Seq<char>)
    ensures
        forall|k: int|
            0 <= k < agent_out_routes(m, source, port).len() ==> m.agents.contains_key(
                (#[trigger] agent_out_routes(m, source, port)[k]).0,
            ),
{
    if m.edges.contains_key(source) {
        lemma_filter_map_targets(m.edges[source], out_route(m, port), m, port);
    }
}

/// The routes chosen from a list of connections lead to agents of the kit.
proof fn lemma_filter_map_targets(
    ts: Seq<Route>,
    f: spec_fn(Route) -> Option<(Seq<char>, Seq<char>)>,
    m: KitModel,
    port: Seq<char>,
)
    requires
        f == out_route(m, port),
    ensures
        forall|k: int| 0 <= k < ts.filter_map(f).len() ==> m.agents.contains_key((#[trigger] ts.filter_map(f)[k]).0),
    decreases ts.len(),
{
    if ts.len() > 0 {
        lemma_filter_map_targets(ts.drop_last(), f, m, port);
        let r = ts.drop_last().filter_map(f);
        assert forall|k: int| 0 <= k < ts.filter_map(f).len() implies m.agents.contains_key((#[trigger] ts.filter_map(f)[k]).0) by {
            if k < r.len() {
                assert(ts.filter_map(f)[k] == r[k]);
            }
        }
    }
}

/// Stopping an agent that was just started gives back the state before.
pub proof fn lemma_stop_undoes_start(m: KitModel, id: Seq<char>)
    requires
        spec_start_agent(m, id) matches Ok((_, Some(_))),
    ensures
        spec_stop_agent(spec_start_agent(m, id)->Ok_0.0, id) == Ok::<(KitModel, bool), ErrorModel>((m, true)),
{
    let m1 = spec_start_agent(m, id)->Ok_0.0;
    assert(m1.agents.insert(id, SlotModel { status: AgentStatus::Init, ..m1.agents[id] }) =~= m.agents);
}

/// A new flow leaves every flow that was there as it was.
pub proof fn lemma_new_flow_keeps_flows(flows: Map<Seq<char>, FlowModel>, name: Seq<char>, n: Seq<char>, f: FlowModel)
    requires
        is_unique_flow_name(flows.dom(), name, n),
    ensures
        forall|k: Seq<char>| #[trigger] flows.contains_key(k) ==> flows.insert(n, f).contains_key(k) && flows.insert(n, f)[k] == flows[k],
        flows.insert(n, f).dom().len() == flows.dom().len() + 1 || !flows.dom().finite(),
{
    if flows.dom().finite() {
        assert(!flows.dom().contains(n));
        assert(flows.insert(n, f).dom() =~= flows.dom().insert(n));
    }
}

/// Renaming moves a flow to its new name, renamed, and leaves the others.
pub proof fn lemma_rename_moves_flow(flows: Map<Seq<char>, FlowModel>, old_name: Seq<char>, new_name: Seq<char>, n: Seq<char>)
    requires
        flows.contains_key(old_name),
        is_unique_flow_name(flows.dom(), new_name, n),
    ensures
        ({
            let after = flows.remove(old_name).insert(n, FlowModel { name: n, ..flows[old_name] });
            &&& !after.contains_key(old_name)
            &&& after.contains_key(n) && after[n].name == n
            &&& after[n].nodes == flows[old_name].nodes && after[n].edges == flows[old_name].edges
            &&& forall|k: Seq<char>| #[trigger] flows.contains_key(k) && k != old_name ==> after.contains_key(k) && after[k] == flows[k]
        }),
{
    assert(!flows.dom().contains(n));
    assert(n != old_name);
}

/// Taking an agent off a board that it was just added to gives back the
/// state before, where the board was there without the agent.
pub proof fn lemma_unregister_undoes_register(m: KitModel, board: Seq<char>, id: Seq<char>)
    requires
        m.board_out_agents.contains_key(board),
        !m.board_out_agents[board].contains(id),
    ensures
        spec_unregister_board_out(spec_register_board_out(m, board, id), board, id) == m,
{
    let l = m.board_out_agents[board];
    let p = name_not(id);
    assert forall|i: int| 0 <= i < l.len() implies p(#[trigger] l[i]) by {
        if l[i] == id {
            assert(l.contains(id));
        }
    }
    crate::seqs::lemma_filter_all(l, p);
    let lp = l.push(id);
    assert(lp.take(l.len() as int) =~= l);
    assert(lp.take(lp.len() as int) =~= lp);
    crate::seqs::lemma_filter_step(lp, p, l.len() as int);
    assert(spec_unregister_board_out(spec_register_board_out(m, board, id), board, id).board_out_agents =~= m.board_out_agents);
}

impl ASKit {
    /// Every kit keeps its connection lists non-empty.
    pub proof fn lemma_new_connections_nonempty()
        ensures
            connections_nonempty(KitModel {
                agents: Map::empty(),
                board_out_agents: Map::empty(),
                board_data: Map::empty(),
                edges: Map::empty(),
                defs: Map::empty(),
                flows: Map::empty(),
            }),
    {
    }
}

} // verus!
