//! Agent flows: nodes that stand for agents, and edges that join an output
//! port of one node to an input port of another.

use crate::config::AgentConfig;
use crate::definition::{config_entries_view, AgentDefinition, ConfigEntryModel, DefinitionModel};
use crate::error::AgentError;
use crate::ids::{advance, decimal, decimal_string, lemma_advance, successor, IdCounter};
use crate::json::{duplicate_json_entries, json_pair_models, JsonModel, JsonValue};
use crate::keymap::{pairs_to_map, KeyMap};
use crate::seqs::{lemma_filter_empty, lemma_filter_step};
use crate::text::{str_eq, to_string};
use crate::value::ValueModel;
use vstd::prelude::*;

verus! {

broadcast use vstd::string::group_string_axioms;

/// The model of an edge.
pub struct EdgeModel {
    pub id: Seq<char>,
    pub source: Seq<char>,
    pub source_handle: Seq<char>,
    pub target: Seq<char>,
    pub target_handle: Seq<char>,
}

/// An edge from an output port (`source_handle`) of the node `source` to an
/// input port (`target_handle`) of the node `target`.
#[derive(Debug)]
pub struct AgentFlowEdge {
    pub id: String,
    pub source: String,
    pub source_handle: String,
    pub target: String,
    pub target_handle: String,
}

impl View for AgentFlowEdge {
    type V = EdgeModel;

    open spec fn view(&self) -> EdgeModel {
        EdgeModel {
            id: self.id@,
            source: self.source@,
            source_handle: self.source_handle@,
            target: self.target@,
            target_handle: self.target_handle@,
        }
    }
}

impl AgentFlowEdge {
    /// A copy of the edge.
    pub fn duplicate(&self) -> (r: Self)
        ensures
            r@ == self@,
    {
        AgentFlowEdge {
            id: self.id.clone(),
            source: self.source.clone(),
            source_handle: self.source_handle.clone(),
            target: self.target.clone(),
            target_handle: self.target_handle.clone(),
        }
    }
}

impl Clone for AgentFlowEdge {
    fn clone(&self) -> (r: Self)
        ensures
            r@ == self@,
    {
        self.duplicate()
    }
}

impl Default for AgentFlowEdge {
    fn default() -> (r: Self)
        ensures
            r@ == (EdgeModel {
                id: Seq::empty(),
                source: Seq::empty(),
                source_handle: Seq::empty(),
                target: Seq::empty(),
                target_handle: Seq::empty(),
            }),
    {
        let r = AgentFlowEdge {
            id: String::new(),
            source: String::new(),
            source_handle: String::new(),
            target: String::new(),
            target_handle: String::new(),
        };
        assert(r@.id =~= Seq::<char>::empty());
        r
    }
}

/// The model of a configuration that may be absent.
pub open spec fn config_model(c: Option<AgentConfig>) -> Option<Map<Seq<char>, ValueModel>> {
    match c {
        Some(c) => Some(c.model()),
        None => None,
    }
}

/// The model of a node.
pub struct NodeModel {
    pub id: Seq<char>,
    pub def_name: Seq<char>,
    pub enabled: bool,
    pub config: Option<Map<Seq<char>, ValueModel>>,
    pub extensions: Seq<(Seq<char>, JsonModel)>,
}

/// A node of a flow: an agent of the definition named `def_name`.
#[derive(Debug)]
pub struct AgentFlowNode {
    pub id: String,
    pub def_name: String,
    pub enabled: bool,
    pub config: Option<AgentConfig>,
    /// Further members that the flow's document holds for the node.
    pub extensions: KeyMap<JsonValue>,
}

impl View for AgentFlowNode {
    type V = NodeModel;

    open spec fn view(&self) -> NodeModel {
        NodeModel {
            id: self.id@,
            def_name: self.def_name@,
            enabled: self.enabled,
            config: config_model(self.config),
            extensions: json_pair_models(self.extensions.pairs()),
        }
    }
}

/// The default values of configuration entries, by key.
pub open spec fn default_values(entries: Seq<(Seq<char>, ConfigEntryModel)>) -> Seq<(Seq<char>, ValueModel)> {
    entries.map_values(|p: (Seq<char>, ConfigEntryModel)| (p.0, p.1.value))
}

/// The configuration a new node of a definition starts with: the default of
/// each entry, a later entry winning over an earlier one with the same key.
pub open spec fn default_config_model(d: DefinitionModel) -> Option<Map<Seq<char>, ValueModel>> {
    match d.default_configs {
        Some(es) => Some(pairs_to_map(default_values(es))),
        None => None,
    }
}

/// Hands out the next node or edge identifier: the decimal form of the
/// counter's value.
pub fn new_id(counter: &mut IdCounter) -> (r: String)
    ensures
        r@ == decimal(old(counter).upcoming() as nat),
        final(counter).upcoming() == successor(old(counter).upcoming()),
{
    let n = counter.fetch_next();
    decimal_string(n as u128)
}

/// A copy of a configuration that may be absent.
fn duplicate_config(c: &Option<AgentConfig>) -> (r: Option<AgentConfig>)
    ensures
        config_model(r) == config_model(*c),
{
    match c {
        Some(c) => Some(c.duplicate()),
        None => None,
    }
}

impl AgentFlowNode {
    /// A new, disabled node of the definition `def`, configured with the
    /// definition's defaults, under the next identifier of `counter`.
    pub fn new(def: &AgentDefinition, counter: &mut IdCounter) -> (r: Result<Self, AgentError>)
        ensures
            r is Ok,
            r->Ok_0@ == (NodeModel {
                id: decimal(old(counter).upcoming() as nat),
                def_name: def@.name,
                enabled: false,
                config: default_config_model(def@),
                extensions: Seq::empty(),
            }),
            final(counter).upcoming() == successor(old(counter).upcoming()),
    {
        let config = match &def.default_configs {
            Some(entries) => {
                let ghost es = config_entries_view(def.default_configs)->Some_0;
                let mut config = AgentConfig::new();
                let mut i: usize = 0;
                while i < entries.len()
                    invariant
                        i <= entries@.len(),
                        es == entries@.map_values(|p: (String, crate::definition::AgentConfigEntry)| (p.0@, p.1@)),
                        config.model() == pairs_to_map(default_values(es).take(i as int)),
                    decreases entries.len() - i,
                {
                    let key = entries[i].0.clone();
                    let value = entries[i].1.value.duplicate();
                    config.set(key, value);
                    proof {
                        let dv = default_values(es);
                        assert(dv[i as int] == (entries@[i as int].0@, entries@[i as int].1.value@));
                        assert(dv.take(i + 1).drop_last() =~= dv.take(i as int));
                    }
                    i = i + 1;
                }
                proof {
                    assert(default_values(es).take(entries@.len() as int) =~= default_values(es));
                }
                Some(config)
            },
            None => None,
        };
        let id = new_id(counter);
        let extensions: KeyMap<JsonValue> = KeyMap::new();
        let r = AgentFlowNode { id, def_name: def.name.clone(), enabled: false, config, extensions };
        assert(json_pair_models(r.extensions.pairs()) =~= Seq::<(Seq<char>, JsonModel)>::empty());
        Ok(r)
    }

    /// A copy of the node.
    pub fn duplicate(&self) -> (r: Self)
        ensures
            r@ == self@,
    {
        AgentFlowNode {
            id: self.id.clone(),
            def_name: self.def_name.clone(),
            enabled: self.enabled,
            config: duplicate_config(&self.config),
            extensions: duplicate_json_entries(&self.extensions),
        }
    }
}

impl Clone for AgentFlowNode {
    fn clone(&self) -> (r: Self)
        ensures
            r@ == self@,
    {
        self.duplicate()
    }
}

impl Default for AgentFlowNode {
    fn default() -> (r: Self)
        ensures
            r@ == (NodeModel {
                id: Seq::empty(),
                def_name: Seq::empty(),
                enabled: false,
                config: None,
                extensions: Seq::empty(),
            }),
    {
        let r = AgentFlowNode {
            id: String::new(),
            def_name: String::new(),
            enabled: false,
            config: None,
            extensions: KeyMap::new(),
        };
        assert(r@.id =~= Seq::<char>::empty());
        assert(json_pair_models(r.extensions.pairs()) =~= Seq::<(Seq<char>, JsonModel)>::empty());
        r
    }
}

/// The models of a sequence of nodes.
pub open spec fn node_models(ns: Seq<AgentFlowNode>) -> Seq<NodeModel> {
    ns.map_values(|n: AgentFlowNode| n@)
}

/// The models of a sequence of edges.
pub open spec fn edge_models(es: Seq<AgentFlowEdge>) -> Seq<EdgeModel> {
    es.map_values(|e: AgentFlowEdge| e@)
}

/// Copies of a sequence of nodes.
pub fn duplicate_nodes(ns: &Vec<AgentFlowNode>) -> (r: Vec<AgentFlowNode>)
    ensures
        node_models(r@) == node_models(ns@),
{
    let mut out: Vec<AgentFlowNode> = Vec::new();
    let mut i: usize = 0;
    while i < ns.len()
        invariant
            i <= ns@.len(),
            out@.len() == i,
            forall|t: int| 0 <= t < i ==> #[trigger] out@[t]@ == ns@[t]@,
        decreases ns.len() - i,
    {
        let n = ns[i].duplicate();
        out.push(n);
        i = i + 1;
    }
    assert(node_models(out@) =~= node_models(ns@));
    out
}

/// Copies of a sequence of edges.
pub fn duplicate_edges(es: &Vec<AgentFlowEdge>) -> (r: Vec<AgentFlowEdge>)
    ensures
        edge_models(r@) == edge_models(es@),
{
    let mut out: Vec<AgentFlowEdge> = Vec::new();
    let mut i: usize = 0;
    while i < es.len()
        invariant
            i <= es@.len(),
            out@.len() == i,
            forall|t: int| 0 <= t < i ==> #[trigger] out@[t]@ == es@[t]@,
        decreases es.len() - i,
    {
        let e = es[i].duplicate();
        out.push(e);
        i = i + 1;
    }
    assert(edge_models(out@) =~= edge_models(es@));
    out
}

/// The model of a flow.
pub struct FlowModel {
    pub name: Seq<char>,
    pub nodes: Seq<NodeModel>,
    pub edges: Seq<EdgeModel>,
    pub extensions: Seq<(Seq<char>, JsonModel)>,
}

/// A named graph of agent nodes and the edges between them.
#[derive(Debug)]
pub struct AgentFlow {
    name: String,
    nodes: Vec<AgentFlowNode>,
    edges: Vec<AgentFlowEdge>,
    /// Further members that the flow's document holds.
    pub extensions: KeyMap<JsonValue>,
}

impl View for AgentFlow {
    type V = FlowModel;

    closed spec fn view(&self) -> FlowModel {
        FlowModel {
            name: self.name@,
            nodes: node_models(self.nodes@),
            edges: edge_models(self.edges@),
            extensions: json_pair_models(self.extensions.pairs()),
        }
    }
}

/// Whether a node does not have the identifier `id`.
pub open spec fn node_not(id: Seq<char>) -> spec_fn(NodeModel) -> bool {
    |n: NodeModel| n.id != id
}

/// Whether an edge does not have the identifier `id`.
pub open spec fn edge_not(id: Seq<char>) -> spec_fn(EdgeModel) -> bool {
    |e: EdgeModel| e.id != id
}

/// The model of an edge that may be absent.
pub open spec fn opt_edge_view(o: Option<AgentFlowEdge>) -> Option<EdgeModel> {
    match o {
        Some(e) => Some(e@),
        None => None,
    }
}

/// The first edge with the identifier `id`, if any.
pub open spec fn first_edge(es: Seq<EdgeModel>, id: Seq<char>) -> Option<EdgeModel>
    decreases es.len(),
{
    if es.len() == 0 {
        None
    } else {
        match first_edge(es.drop_last(), id) {
            Some(e) => Some(e),
            None => if es.last().id == id {
                Some(es.last())
            } else {
                None
            },
        }
    }
}

/// The identifiers of the enabled nodes, in order.
pub open spec fn enabled_ids(ns: Seq<NodeModel>) -> Seq<Seq<char>> {
    ns.filter_map(|n: NodeModel| if n.enabled { Some(n.id) } else { None })
}

impl AgentFlow {
    /// An empty flow named `name`.
    pub fn new(name: String) -> (r: Self)
        ensures
            r@ == (FlowModel { name: name@, nodes: Seq::empty(), edges: Seq::empty(), extensions: Seq::empty() }),
    {
        let r = AgentFlow { name, nodes: Vec::new(), edges: Vec::new(), extensions: KeyMap::new() };
        assert(node_models(r.nodes@) =~= Seq::<NodeModel>::empty());
        assert(edge_models(r.edges@) =~= Seq::<EdgeModel>::empty());
        assert(json_pair_models(r.extensions.pairs()) =~= Seq::<(Seq<char>, JsonModel)>::empty());
        r
    }

    pub fn nodes(&self) -> (r: &Vec<AgentFlowNode>)
        ensures
            node_models(r@) == self@.nodes,
    {
        &self.nodes
    }

    pub fn edges(&self) -> (r: &Vec<AgentFlowEdge>)
        ensures
            edge_models(r@) == self@.edges,
    {
        &self.edges
    }

    pub fn name(&self) -> (r: &str)
        ensures
            r@ == self@.name,
    {
        self.name.as_str()
    }

    pub fn set_name(&mut self, new_name: String)
        ensures
            final(self)@ == (FlowModel { name: new_name@, ..old(self)@ }),
    {
        self.name = new_name;
    }

    /// Appends a node.
    pub fn add_node(&mut self, node: AgentFlowNode)
        ensures
            final(self)@ == (FlowModel { nodes: old(self)@.nodes.push(node@), ..old(self)@ }),
    {
        self.nodes.push(node);
        assert(node_models(self.nodes@) =~= node_models(old(self).nodes@).push(node@));
    }

    /// Removes every node with the identifier `node_id`.
    pub fn remove_node(&mut self, node_id: &str)
        ensures
            final(self)@ == (FlowModel { nodes: old(self)@.nodes.filter(node_not(node_id@)), ..old(self)@ }),
    {
        let ghost ms = node_models(self.nodes@);
        let ghost p = node_not(node_id@);
        let mut kept: Vec<AgentFlowNode> = Vec::new();
        let mut i: usize = 0;
        proof {
            lemma_filter_empty(ms, p);
            assert(node_models(kept@) =~= Seq::<NodeModel>::empty());
        }
        while i < self.nodes.len()
            invariant
                i <= self.nodes@.len(),
                ms == node_models(self.nodes@),
                p == node_not(node_id@),
                node_models(kept@) == ms.take(i as int).filter(p),
            decreases self.nodes.len() - i,
        {
            proof {
                lemma_filter_step(ms, p, i as int);
            }
            if !str_eq(self.nodes[i].id.as_str(), node_id) {
                let n = self.nodes[i].duplicate();
                kept.push(n);
                assert(node_models(kept@) =~= ms.take(i as int).filter(p).push(ms[i as int]));
            }
            i = i + 1;
        }
        assert(ms.take(ms.len() as int) =~= ms);
        self.nodes = kept;
    }

    /// Replaces all nodes.
    pub fn set_nodes(&mut self, nodes: Vec<AgentFlowNode>)
        ensures
            final(self)@ == (FlowModel { nodes: node_models(nodes@), ..old(self)@ }),
    {
        self.nodes = nodes;
    }

    /// Appends an edge.
    pub fn add_edge(&mut self, edge: AgentFlowEdge)
        ensures
            final(self)@ == (FlowModel { edges: old(self)@.edges.push(edge@), ..old(self)@ }),
    {
        self.edges.push(edge);
        assert(edge_models(self.edges@) =~= edge_models(old(self).edges@).push(edge@));
    }

    /// Removes every edge with the identifier `edge_id`, and returns the
    /// first of them, or `None` where there is none.
    pub fn remove_edge(&mut self, edge_id: &str) -> (r: Option<AgentFlowEdge>)
        ensures
            final(self)@ == (FlowModel { edges: old(self)@.edges.filter(edge_not(edge_id@)), ..old(self)@ }),
            opt_edge_view(r) == first_edge(old(self)@.edges, edge_id@),
    {
        let ghost ms = edge_models(self.edges@);
        let ghost p = edge_not(edge_id@);
        let mut found: Option<AgentFlowEdge> = None;
        let mut kept: Vec<AgentFlowEdge> = Vec::new();
        let mut i: usize = 0;
        proof {
            assert(ms.take(0) =~= Seq::<EdgeModel>::empty());
            lemma_filter_empty(ms, p);
            assert(edge_models(kept@) =~= Seq::<EdgeModel>::empty());
        }
        while i < self.edges.len()
            invariant
                i <= self.edges@.len(),
                ms == edge_models(self.edges@),
                p == edge_not(edge_id@),
                edge_models(kept@) == ms.take(i as int).filter(p),
                opt_edge_view(found) == first_edge(ms.take(i as int), edge_id@),
            decreases self.edges.len() - i,
        {
            proof {
                lemma_filter_step(ms, p, i as int);
                assert(ms.take(i + 1).drop_last() =~= ms.take(i as int));
                assert(ms.take(i + 1).last() == ms[i as int]);
            }
            if str_eq(self.edges[i].id.as_str(), edge_id) {
                if found.is_none() {
                    let e = self.edges[i].duplicate();
                    found = Some(e);
                }
            } else {
                let e = self.edges[i].duplicate();
                kept.push(e);
                assert(edge_models(kept@) =~= ms.take(i as int).filter(p).push(ms[i as int]));
            }
            i = i + 1;
        }
        assert(ms.take(ms.len() as int) =~= ms);
        assert(ms == old(self)@.edges);
        self.edges = kept;
        found
    }

    /// Replaces all edges.
    pub fn set_edges(&mut self, edges: Vec<AgentFlowEdge>)
        ensures
            final(self)@ == (FlowModel { edges: edge_models(edges@), ..old(self)@ }),
    {
        self.edges = edges;
    }

    /// Disables every node.
    pub fn disable_all_nodes(&mut self)
        ensures
            final(self)@ == (FlowModel {
                nodes: old(self)@.nodes.map_values(|n: NodeModel| NodeModel { enabled: false, ..n }),
                ..old(self)@
            }),
    {
        let ghost ms = node_models(self.nodes@);
        let mut out: Vec<AgentFlowNode> = Vec::new();
        let mut i: usize = 0;
        while i < self.nodes.len()
            invariant
                i <= self.nodes@.len(),
                ms == node_models(self.nodes@),
                out@.len() == i,
                forall|t: int| 0 <= t < i ==> #[trigger] out@[t]@ == (NodeModel { enabled: false, ..ms[t] }),
            decreases self.nodes.len() - i,
        {
            let mut n = self.nodes[i].duplicate();
            n.enabled = false;
            out.push(n);
            i = i + 1;
        }
        assert(node_models(out@) =~= ms.map_values(|n: NodeModel| NodeModel { enabled: false, ..n }));
        self.nodes = out;
    }

    /// The identifiers of the enabled nodes, in order: the agents that
    /// starting or stopping the flow starts or stops.
    pub fn enabled_node_ids(&self) -> (r: Vec<String>)
        ensures
            r@.map_values(|s: String| s@) == enabled_ids(self@.nodes),
    {
        let ghost ms = node_models(self.nodes@);
        let ghost f = |n: NodeModel| if n.enabled { Some(n.id) } else { None };
        let mut out: Vec<String> = Vec::new();
        let mut i: usize = 0;
        assert(ms.take(0).filter_map(f) =~= Seq::<Seq<char>>::empty()) by {
            assert(ms.take(0) =~= Seq::<NodeModel>::empty());
        }
        while i < self.nodes.len()
            invariant
                i <= self.nodes@.len(),
                ms == node_models(self.nodes@),
                f == (|n: NodeModel| if n.enabled { Some(n.id) } else { None }),
                out@.map_values(|s: String| s@) == ms.take(i as int).filter_map(f),
            decreases self.nodes.len() - i,
        {
            proof {
                ms.lemma_filter_map_take_succ(f, i as int);
            }
            if self.nodes[i].enabled {
                out.push(self.nodes[i].id.clone());
            }
            assert(out@.map_values(|s: String| s@) =~= ms.take(i + 1).filter_map(f));
            i = i + 1;
        }
        assert(ms.take(ms.len() as int) =~= ms);
        out
    }

    /// A copy of the flow.
    pub fn duplicate(&self) -> (r: Self)
        ensures
            r@ == self@,
    {
        AgentFlow {
            name: self.name.clone(),
            nodes: duplicate_nodes(&self.nodes),
            edges: duplicate_edges(&self.edges),
            extensions: duplicate_json_entries(&self.extensions),
        }
    }
}

impl Clone for AgentFlow {
    fn clone(&self) -> (r: Self)
        ensures
            r@ == self@,
    {
        self.duplicate()
    }
}

/// Each copied node's old identifier with its new one, in node order.
pub open spec fn renamed_ids(nodes: Seq<NodeModel>, c: usize) -> Seq<(Seq<char>, Seq<char>)> {
    Seq::new(nodes.len(), |i: int| (nodes[i].id, decimal(advance(c, i as nat) as nat)))
}

/// The copies of nodes, numbered from the counter value `c` on.
pub open spec fn copied_nodes(nodes: Seq<NodeModel>, c: usize) -> Seq<NodeModel> {
    Seq::new(nodes.len(), |i: int| NodeModel { id: decimal(advance(c, i as nat) as nat), ..nodes[i] })
}

/// Whether both ends of an edge were renamed.
pub open spec fn edge_kept(e: EdgeModel, m: Map<Seq<char>, Seq<char>>) -> bool {
    m.contains_key(e.source) && m.contains_key(e.target)
}

/// The copies of the edges whose two ends were renamed by `m`, joined to the
/// renamed ends and numbered from the counter value `c` on.
pub open spec fn copied_edges(es: Seq<EdgeModel>, m: Map<Seq<char>, Seq<char>>, c: usize) -> Seq<EdgeModel>
    decreases es.len(),
{
    if es.len() == 0 {
        Seq::empty()
    } else if edge_kept(es[0], m) {
        seq![EdgeModel { id: decimal(c as nat), source: m[es[0].source], target: m[es[0].target], ..es[0] }]
            + copied_edges(es.skip(1), m, successor(c))
    } else {
        copied_edges(es.skip(1), m, c)
    }
}

/// The counter's value after the copied edges were numbered from `c` on.
pub open spec fn counter_after_edges(es: Seq<EdgeModel>, m: Map<Seq<char>, Seq<char>>, c: usize) -> usize
    decreases es.len(),
{
    if es.len() == 0 {
        c
    } else if edge_kept(es[0], m) {
        counter_after_edges(es.skip(1), m, successor(c))
    } else {
        counter_after_edges(es.skip(1), m, c)
    }
}

/// Copies a part of a flow under new identifiers. Each node is copied under
/// the next identifier of `counter`; then each edge whose two ends are among
/// the copied nodes is copied under the next identifier, joined to the copies
/// of its ends. Edges with an end outside `nodes` are left out.
pub fn copy_sub_flow(
    nodes: &Vec<AgentFlowNode>,
    edges: &Vec<AgentFlowEdge>,
    counter: &mut IdCounter,
) -> (r: (Vec<AgentFlowNode>, Vec<AgentFlowEdge>))
    ensures
        node_models(r.0@) == copied_nodes(node_models(nodes@), old(counter).upcoming()),
        edge_models(r.1@) == copied_edges(
            edge_models(edges@),
            pairs_to_map(renamed_ids(node_models(nodes@), old(counter).upcoming())),
            advance(old(counter).upcoming(), nodes@.len()),
        ),
        final(counter).upcoming() == counter_after_edges(
            edge_models(edges@),
            pairs_to_map(renamed_ids(node_models(nodes@), old(counter).upcoming())),
            advance(old(counter).upcoming(), nodes@.len()),
        ),
{
    let ghost c0 = counter.upcoming();
    let ghost ms = node_models(nodes@);
    let ghost rn = renamed_ids(ms, c0);
    let mut new_nodes: Vec<AgentFlowNode> = Vec::new();
    let mut id_map: KeyMap<String> = KeyMap::new();
    let mut i: usize = 0;
    assert(pairs_to_map(rn.take(0)) =~= Map::<Seq<char>, Seq<char>>::empty()) by {
        assert(rn.take(0) =~= Seq::<(Seq<char>, Seq<char>)>::empty());
    }
    assert(id_map.map().map_values(|s: String| s@) =~= Map::<Seq<char>, Seq<char>>::empty());
    while i < nodes.len()
        invariant
            i <= nodes@.len(),
            ms == node_models(nodes@),
            rn == renamed_ids(ms, c0),
            counter.upcoming() == advance(c0, i as nat),
            new_nodes@.len() == i,
            forall|t: int| 0 <= t < i ==> #[trigger] new_nodes@[t]@ == copied_nodes(ms, c0)[t],
            id_map.map().map_values(|s: String| s@) == pairs_to_map(rn.take(i as int)),
        decreases nodes.len() - i,
    {
        let ghost before = id_map.map();
        let id = new_id(counter);
        let old_id = nodes[i].id.clone();
        id_map.insert(old_id, id.clone());
        let mut node = nodes[i].duplicate();
        node.id = id;
        new_nodes.push(node);
        proof {
            assert(rn[i as int] == (ms[i as int].id, decimal(advance(c0, i as nat) as nat)));
            assert(rn.take(i + 1).drop_last() =~= rn.take(i as int));
            assert(id_map.map().map_values(|s: String| s@) =~= before.map_values(|s: String| s@).insert(rn[i as int].0, rn[i as int].1));
        }
        i = i + 1;
    }
    assert(rn.take(nodes@.len() as int) =~= rn);
    let ghost m = pairs_to_map(rn);
    let ghost c1 = counter.upcoming();
    let ghost es = edge_models(edges@);
    let mut new_edges: Vec<AgentFlowEdge> = Vec::new();
    let mut j: usize = 0;
    assert(es.skip(0) =~= es);
    assert(edge_models(new_edges@) =~= Seq::<EdgeModel>::empty());
    assert(edge_models(new_edges@) + copied_edges(es, m, c1) =~= copied_edges(es, m, c1));
    while j < edges.len()
        invariant
            j <= edges@.len(),
            es == edge_models(edges@),
            id_map.map().map_values(|s: String| s@) == m,
            edge_models(new_edges@) + copied_edges(es.skip(j as int), m, counter.upcoming()) == copied_edges(es, m, c1),
            counter_after_edges(es.skip(j as int), m, counter.upcoming()) == counter_after_edges(es, m, c1),
        decreases edges.len() - j,
    {
        let ghost rest = es.skip(j as int);
        let ghost c = counter.upcoming();
        let ghost done = edge_models(new_edges@);
        proof {
            assert(rest[0] == es[j as int]);
            assert(rest.skip(1) =~= es.skip(j + 1));
        }
        let edge = &edges[j];
        match id_map.get(edge.source.as_str()) {
            Some(source) => match id_map.get(edge.target.as_str()) {
                Some(target) => {
                    let id = new_id(counter);
                    let copy = AgentFlowEdge {
                        id,
                        source: source.clone(),
                        source_handle: edge.source_handle.clone(),
                        target: target.clone(),
                        target_handle: edge.target_handle.clone(),
                    };
                    new_edges.push(copy);
                    proof {
                        assert(edge_kept(es[j as int], m));
                        let x = EdgeModel { id: decimal(c as nat), source: m[es[j as int].source], target: m[es[j as int].target], ..es[j as int] };
                        assert(copy@ == x);
                        assert(edge_models(new_edges@) =~= done.push(x));
                        assert(copied_edges(rest, m, c) == seq![x] + copied_edges(es.skip(j + 1), m, successor(c)));
                        assert(done.push(x) + copied_edges(es.skip(j + 1), m, successor(c)) =~= done + (seq![x] + copied_edges(es.skip(j + 1), m, successor(c))));
                    }
                },
                None => {
                    proof {
                        assert(!edge_kept(es[j as int], m));
                    }
                },
            },
            None => {
                proof {
                    assert(!edge_kept(es[j as int], m));
                }
            },
        }
        j = j + 1;
    }
    proof {
        assert(es.skip(edges@.len() as int) =~= Seq::<EdgeModel>::empty());
        assert(edge_models(new_edges@) + Seq::<EdgeModel>::empty() =~= edge_models(new_edges@));
        assert(node_models(new_nodes@) =~= copied_nodes(ms, c0));
    }
    (new_nodes, new_edges)
}

/// The nodes that `copy_sub_flow` makes have distinct identifiers, as long as
/// the counter does not run past the largest `usize`.
pub proof fn lemma_copied_node_ids_distinct(nodes: Seq<NodeModel>, c: usize, i: int, j: int)
    requires
        c + nodes.len() <= usize::MAX,
        0 <= i < nodes.len(),
        0 <= j < nodes.len(),
        i != j,
    ensures
        copied_nodes(nodes, c)[i].id != copied_nodes(nodes, c)[j].id,
{
    lemma_advance(c, i as nat);
    lemma_advance(c, j as nat);
    if copied_nodes(nodes, c)[i].id == copied_nodes(nodes, c)[j].id {
        crate::ids::lemma_decimal_injective((c + i) as nat, (c + j) as nat);
    }
}

/// A key of the map that an entry sequence describes comes with the value
/// of some entry.
pub proof fn lemma_map_value_from_entry<V>(ps: Seq<(Seq<char>, V)>, k: Seq<char>)
    requires
        pairs_to_map(ps).contains_key(k),
    ensures
        exists|i: int| 0 <= i < ps.len() && ps[i].0 == k && #[trigger] ps[i].1 == pairs_to_map(ps)[k],
    decreases ps.len(),
{
    if ps.last().0 == k {
        assert(ps[ps.len() - 1].1 == pairs_to_map(ps)[k]);
    } else {
        let r = ps.drop_last();
        lemma_map_value_from_entry(r, k);
        let i = choose|i: int| 0 <= i < r.len() && r[i].0 == k && #[trigger] r[i].1 == pairs_to_map(r)[k];
        assert(ps[i] == r[i]);
    }
}

/// Each copied edge comes from an edge whose two ends were renamed: it keeps
/// that edge's ports, and joins the new names of that edge's ends.
pub proof fn lemma_copied_edges_keep_ports(es: Seq<EdgeModel>, m: Map<Seq<char>, Seq<char>>, c: usize, k: int)
    requires
        0 <= k < copied_edges(es, m, c).len(),
    ensures
        exists|j: int|
            0 <= j < es.len() && edge_kept(es[j], m) && #[trigger] es[j].source_handle == copied_edges(es, m, c)[k].source_handle
                && es[j].target_handle == copied_edges(es, m, c)[k].target_handle && copied_edges(es, m, c)[k].source
                == m[es[j].source] && copied_edges(es, m, c)[k].target == m[es[j].target],
    decreases es.len(),
{
    let r = copied_edges(es, m, c);
    if edge_kept(es[0], m) {
        if k == 0 {
            assert(es[0].source_handle == r[0].source_handle);
        } else {
            let d = successor(c);
            assert(r[k] == copied_edges(es.skip(1), m, d)[k - 1]);
            lemma_copied_edges_keep_ports(es.skip(1), m, d, k - 1);
            let j = choose|j: int|
                0 <= j < es.skip(1).len() && edge_kept(es.skip(1)[j], m) && #[trigger] es.skip(1)[j].source_handle
                    == copied_edges(es.skip(1), m, d)[k - 1].source_handle && es.skip(1)[j].target_handle == copied_edges(
                    es.skip(1),
                    m,
                    d,
                )[k - 1].target_handle && copied_edges(es.skip(1), m, d)[k - 1].source == m[es.skip(1)[j].source]
                    && copied_edges(es.skip(1), m, d)[k - 1].target == m[es.skip(1)[j].target];
            assert(es[j + 1] == es.skip(1)[j]);
        }
    } else {
        lemma_copied_edges_keep_ports(es.skip(1), m, c, k);
        let j = choose|j: int|
            0 <= j < es.skip(1).len() && edge_kept(es.skip(1)[j], m) && #[trigger] es.skip(1)[j].source_handle == copied_edges(
                es.skip(1),
                m,
                c,
            )[k].source_handle && es.skip(1)[j].target_handle == copied_edges(es.skip(1), m, c)[k].target_handle
                && copied_edges(es.skip(1), m, c)[k].source == m[es.skip(1)[j].source] && copied_edges(es.skip(1), m, c)[k].target
                == m[es.skip(1)[j].target];
        assert(es[j + 1] == es.skip(1)[j]);
    }
}

/// Where both ends of every edge were renamed, every edge is copied, in
/// order: the copy of each keeps its ports and joins the new names of its
/// ends; only the identifier and the ends change.
pub proof fn lemma_copied_edges_all_kept(es: Seq<EdgeModel>, m: Map<Seq<char>, Seq<char>>, c: usize)
    requires
        forall|j: int| 0 <= j < es.len() ==> edge_kept(#[trigger] es[j], m),
    ensures
        copied_edges(es, m, c).len() == es.len(),
        forall|k: int|
            0 <= k < es.len() ==> {
                &&& (#[trigger] copied_edges(es, m, c)[k]).source_handle == es[k].source_handle
                &&& copied_edges(es, m, c)[k].target_handle == es[k].target_handle
                &&& copied_edges(es, m, c)[k].source == m[es[k].source]
                &&& copied_edges(es, m, c)[k].target == m[es[k].target]
            },
    decreases es.len(),
{
    if es.len() > 0 {
        let t = es.skip(1);
        let d = successor(c);
        assert forall|j: int| 0 <= j < t.len() implies edge_kept(#[trigger] t[j], m) by {
            assert(t[j] == es[j + 1]);
        }
        lemma_copied_edges_all_kept(t, m, d);
        assert(edge_kept(es[0], m));
        let r = copied_edges(es, m, c);
        assert forall|k: int| 0 <= k < es.len() implies {
            &&& (#[trigger] r[k]).source_handle == es[k].source_handle
            &&& r[k].target_handle == es[k].target_handle
            &&& r[k].source == m[es[k].source]
            &&& r[k].target == m[es[k].target]
        } by {
            if k > 0 {
                assert(r[k] == copied_edges(t, m, d)[k - 1]);
                assert(t[k - 1] == es[k]);
            }
        }
    }
}

/// Every edge that `copy_sub_flow` makes joins two of the nodes it makes.
pub proof fn lemma_copied_edges_join_copied_nodes(
    nodes: Seq<NodeModel>,
    c: usize,
    es: Seq<EdgeModel>,
    d: usize,
    k: int,
)
    requires
        0 <= k < copied_edges(es, pairs_to_map(renamed_ids(nodes, c)), d).len(),
    ensures
        exists|i: int|
            0 <= i < nodes.len() && #[trigger] copied_nodes(nodes, c)[i].id
                == copied_edges(es, pairs_to_map(renamed_ids(nodes, c)), d)[k].source,
        exists|i: int|
            0 <= i < nodes.len() && #[trigger] copied_nodes(nodes, c)[i].id
                == copied_edges(es, pairs_to_map(renamed_ids(nodes, c)), d)[k].target,
    decreases es.len(),
{
    let rn = renamed_ids(nodes, c);
    let m = pairs_to_map(rn);
    if edge_kept(es[0], m) {
        if k == 0 {
            lemma_map_value_from_entry(rn, es[0].source);
            let i = choose|i: int| 0 <= i < rn.len() && rn[i].0 == es[0].source && #[trigger] rn[i].1 == m[es[0].source];
            assert(copied_nodes(nodes, c)[i].id == m[es[0].source]);
            lemma_map_value_from_entry(rn, es[0].target);
            let t = choose|t: int| 0 <= t < rn.len() && rn[t].0 == es[0].target && #[trigger] rn[t].1 == m[es[0].target];
            assert(copied_nodes(nodes, c)[t].id == m[es[0].target]);
        } else {
            lemma_copied_edges_join_copied_nodes(nodes, c, es.skip(1), successor(d), k - 1);
        }
    } else {
        lemma_copied_edges_join_copied_nodes(nodes, c, es.skip(1), d, k);
    }
}

} // verus!
