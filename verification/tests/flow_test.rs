use agent_stream_kit::askit::{ASKit, AgentStatus, ConfigDelivery, InputDelivery};
use agent_stream_kit::data::AgentData;
use agent_stream_kit::definition::AgentDefinition;
use agent_stream_kit::flow::{copy_sub_flow, AgentFlow, AgentFlowEdge, AgentFlowNode};
use agent_stream_kit::ids::IdCounter;

fn register_agents(askit: &mut ASKit) {
    askit.register_agent(
        AgentDefinition::new("Rust", "$counter")
            .with_title("Counter")
            .with_category("Core/Utils")
            .with_inputs(vec!["in", "reset"])
            .with_outputs(vec!["count"]),
    );
}

fn edge(id: &str, source: &str, source_handle: &str, target: &str, target_handle: &str) -> AgentFlowEdge {
    AgentFlowEdge {
        id: id.to_string(),
        source: source.to_string(),
        source_handle: source_handle.to_string(),
        target: target.to_string(),
        target_handle: target_handle.to_string(),
    }
}

fn kit_with_two_agents() -> (ASKit, String, String) {
    let mut askit = ASKit::new();
    register_agents(&mut askit);
    let def = askit.get_agent_definition("$counter").unwrap();
    let mut counter = IdCounter::new();
    let a = AgentFlowNode::new(&def, &mut counter).unwrap();
    let b = AgentFlowNode::new(&def, &mut counter).unwrap();
    askit.add_agent(&a, true).unwrap();
    askit.add_agent(&b, true).unwrap();
    (askit, a.id.clone(), b.id.clone())
}

#[test]
fn test_register_agents() {
    let mut askit = ASKit::new();
    register_agents(&mut askit);

    let counter_def = askit.get_agent_definition("$counter").unwrap();
    assert_eq!(counter_def.title, Some("Counter".into()));
    assert_eq!(counter_def.inputs, Some(vec!["in".to_string(), "reset".to_string()]));
    assert_eq!(counter_def.outputs, Some(vec!["count".to_string()]));
}

#[test]
fn test_agent_flow_node_new() {
    let mut askit = ASKit::new();
    register_agents(&mut askit);
    let def = askit.get_agent_definition("$counter").unwrap();
    let mut counter = IdCounter::new();

    let node = AgentFlowNode::new(&def, &mut counter).unwrap();
    assert_eq!(node.def_name, "$counter");
    assert!(!node.enabled);

    let node2 = AgentFlowNode::new(&def, &mut counter).unwrap();
    assert_eq!(node2.def_name, "$counter");
    assert!(node.id != node2.id);
    assert!(!node2.enabled);
}

#[test]
fn test_agent_flow_new() {
    let flow = AgentFlow::new("test_flow".into());
    assert_eq!(flow.name(), "test_flow");
}

#[test]
fn test_agent_flow_rename() {
    let mut flow = AgentFlow::new("test_flow".into());
    flow.set_name("new_flow_name".into());
    assert_eq!(flow.name(), "new_flow_name");
}

#[test]
fn test_agent_flow_add_agent() {
    let mut askit = ASKit::new();
    register_agents(&mut askit);

    let mut flow = AgentFlow::new("test_flow".into());
    assert_eq!(flow.nodes().len(), 0);

    let def = askit.get_agent_definition("$counter").unwrap();
    let node = AgentFlowNode::new(&def, &mut IdCounter::new()).unwrap();
    flow.add_node(node);
    assert_eq!(flow.nodes().len(), 1);
}

#[test]
fn test_agent_flow_remove_agent() {
    let mut askit = ASKit::new();
    register_agents(&mut askit);

    let mut flow = AgentFlow::new("test_flow".into());
    assert_eq!(flow.nodes().len(), 0);

    let def = askit.get_agent_definition("$counter").unwrap();
    let node = AgentFlowNode::new(&def, &mut IdCounter::new()).unwrap();
    let node_id = node.id.clone();

    flow.add_node(node);
    assert_eq!(flow.nodes().len(), 1);

    flow.remove_node(&node_id);
    assert_eq!(flow.nodes().len(), 0);
}

#[test]
fn node_ids_count_up_in_decimal() {
    let def = AgentDefinition::new("Rust", "x");
    let mut counter = IdCounter::new();
    let ids: Vec<String> = (0..11).map(|_| AgentFlowNode::new(&def, &mut counter).unwrap().id).collect();
    assert_eq!(ids[0], "1");
    assert_eq!(ids[9], "10");
    assert_eq!(ids[10], "11");
}

#[test]
fn node_config_starts_from_the_defaults() {
    let def = AgentDefinition::new("Rust", "x").with_integer_config("n", 7).with_string_config("s", "v");
    let node = AgentFlowNode::new(&def, &mut IdCounter::new()).unwrap();
    let config = node.config.unwrap();
    assert_eq!(config.get_integer("n"), Some(7));
    assert_eq!(config.get_string("s").as_deref(), Some("v"));
}

#[test]
fn flow_remove_edge_returns_the_edge() {
    let mut flow = AgentFlow::new("f".into());
    flow.add_edge(edge("e1", "1", "out", "2", "in"));
    flow.add_edge(edge("e2", "2", "out", "1", "in"));
    let removed = flow.remove_edge("e1").unwrap();
    assert_eq!(removed.source, "1");
    assert_eq!(flow.edges().len(), 1);
    assert!(flow.remove_edge("e1").is_none());
}

#[test]
fn disable_all_nodes_leaves_no_enabled_node() {
    let def = AgentDefinition::new("Rust", "x");
    let mut counter = IdCounter::new();
    let mut flow = AgentFlow::new("f".into());
    for _ in 0..3 {
        let mut node = AgentFlowNode::new(&def, &mut counter).unwrap();
        node.enabled = true;
        flow.add_node(node);
    }
    assert_eq!(flow.enabled_node_ids(), vec!["1".to_string(), "2".to_string(), "3".to_string()]);
    flow.disable_all_nodes();
    assert!(flow.enabled_node_ids().is_empty());
}

#[test]
fn copy_sub_flow_renames_nodes_and_keeps_inner_edges() {
    let def = AgentDefinition::new("Rust", "x");
    let mut counter = IdCounter::new();
    let a = AgentFlowNode::new(&def, &mut counter).unwrap();
    let b = AgentFlowNode::new(&def, &mut counter).unwrap();
    let edges = vec![edge("e1", &a.id, "out", &b.id, "in"), edge("e2", &a.id, "out", "99", "in")];
    let (nodes, new_edges) = copy_sub_flow(&vec![a, b], &edges, &mut counter);
    assert_eq!(nodes[0].id, "3");
    assert_eq!(nodes[1].id, "4");
    assert_eq!(new_edges.len(), 1);
    assert_eq!(new_edges[0].id, "5");
    assert_eq!(new_edges[0].source, "3");
    assert_eq!(new_edges[0].target, "4");
}

#[test]
fn edges_route_output_to_running_targets() {
    let (mut askit, a, b) = kit_with_two_agents();
    let e = edge("e", &a, "count", &b, "in");
    askit.add_edge(&e).unwrap();
    assert_eq!(askit.agent_out_targets(&a, "count"), vec![(b.clone(), "in".to_string())]);
    assert!(askit.agent_out_targets(&a, "other").is_empty());

    assert!(askit.add_edge(&e).is_err());
    askit.remove_edge(&e);
    assert!(askit.agent_out_targets(&a, "count").is_empty());
}

#[test]
fn wildcard_ports_pass_the_port_through() {
    let (mut askit, a, b) = kit_with_two_agents();
    askit.add_edge(&edge("e", &a, "*", &b, "*")).unwrap();
    assert_eq!(askit.agent_out_targets(&a, "anything"), vec![(b.clone(), "anything".to_string())]);
}

#[test]
fn add_edge_errors() {
    let (mut askit, a, b) = kit_with_two_agents();
    assert!(askit.add_edge(&edge("e", "missing", "out", &b, "in")).is_err());
    assert!(askit.add_edge(&edge("e", &a, "", &b, "in")).is_err());
    assert!(askit.add_edge(&edge("e", &a, "out", &b, "")).is_err());
}

#[test]
fn start_and_stop_change_the_status() {
    let (mut askit, a, _b) = kit_with_two_agents();
    assert!(matches!(askit.agent_status(&a), Some(AgentStatus::Init)));
    assert!(matches!(askit.config_delivery(&a), Ok(ConfigDelivery::Apply)));
    assert!(matches!(askit.input_delivery(&a), Ok(InputDelivery::Drop)));

    assert_eq!(askit.start_agent(&a).unwrap(), Some(false));
    assert!(matches!(askit.agent_status(&a), Some(AgentStatus::Start)));
    assert!(matches!(askit.config_delivery(&a), Ok(ConfigDelivery::Send)));
    assert!(matches!(askit.input_delivery(&a), Ok(InputDelivery::Send)));
    assert_eq!(askit.start_agent(&a).unwrap(), None);

    assert_eq!(askit.stop_agent(&a).unwrap(), true);
    assert!(matches!(askit.agent_status(&a), Some(AgentStatus::Init)));
    assert_eq!(askit.stop_agent(&a).unwrap(), false);

    assert!(askit.stop_agent("missing").is_err());
    assert!(askit.start_agent("missing").is_err());
}

#[test]
fn remove_agent_drops_its_connections() {
    let (mut askit, a, b) = kit_with_two_agents();
    askit.add_edge(&edge("e1", &a, "out", &b, "in")).unwrap();
    askit.add_edge(&edge("e2", &b, "out", &a, "in")).unwrap();
    askit.start_agent(&b).unwrap();
    assert_eq!(askit.remove_agent(&b).unwrap(), true);
    assert!(!askit.contains_agent(&b));
    assert!(askit.agent_out_targets(&a, "out").is_empty());
    assert!(askit.agent_out_targets(&b, "out").is_empty());
    assert!(askit.remove_agent(&b).is_err());
}

#[test]
fn add_agent_errors() {
    let mut askit = ASKit::new();
    register_agents(&mut askit);
    let def = askit.get_agent_definition("$counter").unwrap();
    let node = AgentFlowNode::new(&def, &mut IdCounter::new()).unwrap();
    assert!(askit.add_agent(&node, false).is_err());
    askit.add_agent(&node, true).unwrap();
    assert!(askit.add_agent(&node, true).is_err());

    let unknown = AgentFlowNode::new(&AgentDefinition::new("Rust", "unknown"), &mut IdCounter::new()).unwrap();
    assert!(askit.add_agent(&unknown, true).is_err());
}

#[test]
fn boards_route_through_the_edges_of_their_agents() {
    let (mut askit, a, b) = kit_with_two_agents();
    askit.add_edge(&edge("e", &a, "*", &b, "*")).unwrap();
    askit.register_board_out_agent("board", &a);
    assert_eq!(askit.board_out_targets("board"), vec![(b.clone(), "board".to_string())]);
    askit.change_board_out_agent(&Some("board".to_string()), &Some("other".to_string()), &a);
    assert!(askit.board_out_targets("board").is_empty());
    assert_eq!(askit.board_out_targets("other"), vec![(b.clone(), "other".to_string())]);
    askit.unregister_board_out_agent("other", &a);
    assert!(askit.board_out_targets("other").is_empty());
    askit.set_board_data("other", AgentData::integer(1));
}

#[test]
fn new_flow_names_are_unique_and_valid() {
    let mut askit = ASKit::new();
    let f1 = askit.new_agent_flow(" main ").unwrap();
    assert_eq!(f1.name(), "main");
    let f2 = askit.new_agent_flow("main").unwrap();
    assert_eq!(f2.name(), "main2");
    let f3 = askit.new_agent_flow("main").unwrap();
    assert_eq!(f3.name(), "main3");
    assert!(askit.new_agent_flow("").is_err());
    assert!(askit.new_agent_flow("a//b").is_err());
    assert!(askit.new_agent_flow("../x").is_err());
    assert!(askit.get_agent_flow("main2").is_some());
}

#[test]
fn rename_moves_the_flow() {
    let mut askit = ASKit::new();
    askit.new_agent_flow("one").unwrap();
    let renamed = askit.rename_agent_flow("one", "two").unwrap();
    assert_eq!(renamed, "two");
    assert!(askit.get_agent_flow("one").is_none());
    assert_eq!(askit.get_agent_flow("two").unwrap().name(), "two");
    assert!(askit.rename_agent_flow("missing", "three").is_err());
    assert!(askit.rename_agent_flow("two", "").is_err());
}

#[test]
fn flows_add_start_and_remove_their_agents() {
    let mut askit = ASKit::new();
    register_agents(&mut askit);
    let def = askit.get_agent_definition("$counter").unwrap();
    let mut counter = IdCounter::new();
    let mut a = AgentFlowNode::new(&def, &mut counter).unwrap();
    a.enabled = true;
    let b = AgentFlowNode::new(&def, &mut counter).unwrap();
    let mut flow = AgentFlow::new("f".into());
    let e = edge("e", &a.id, "count", &b.id, "in");
    flow.add_node(a.clone());
    flow.add_node(b.clone());
    flow.add_edge(e);
    askit.add_agent_flow(&flow, &vec![true, true]).unwrap();
    assert!(askit.contains_agent(&a.id));
    assert_eq!(askit.agent_out_targets(&a.id, "count").len(), 1);

    let started = askit.start_agent_flow("f").unwrap();
    assert_eq!(started, vec![(a.id.clone(), false)]);

    let mut stopped = Vec::new();
    askit.remove_agent_flow("f", &mut stopped).unwrap();
    assert_eq!(stopped, vec![a.id.clone()]);
    assert!(!askit.contains_agent(&a.id));
    assert!(!askit.contains_agent(&b.id));
    assert!(askit.get_agent_flow("f").is_none());
}
