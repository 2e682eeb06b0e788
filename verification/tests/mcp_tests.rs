use patchwork::graph::Graph;
use patchwork::jsonpath::JsonNode;
use patchwork::mcp::{blank_line, rpc_action, unknown_method_message, RpcAction, eq_ignoring_case, find_by_title, parse_tool_call, resolve_titles, CommandError, McpCommand, ToolArgs, WorkflowConn};
use patchwork::node_type::NodeType;

fn no_args() -> ToolArgs {
    ToolArgs {
        node_type: None,
        node_id: None,
        has_properties: false,
        from_node: None,
        from_port: None,
        to_node: None,
        to_port: None,
        path: None,
        workflow_nodes: None,
        workflow_conns: None,
    }
}

fn wire_args() -> ToolArgs {
    ToolArgs { from_node: Some(1), from_port: Some(2), to_node: Some(3), to_port: Some(4), ..no_args() }
}

fn err(r: Result<McpCommand, String>) -> String {
    match r {
        Err(e) => e,
        Ok(_) => panic!("expected an error"),
    }
}

#[test]
fn error_messages_name_the_node() {
    assert_eq!(CommandError::NodeNotFound(7).message(), "Node 7 not found");
    assert_eq!(CommandError::SourceNotFound(12).message(), "Source node 12 not found");
    assert_eq!(CommandError::TargetNotFound(0).message(), "Target node 0 not found");
}

#[test]
fn delete_node_reports_missing_node() {
    let mut g: Graph<u8> = Graph::new();
    let a = g.add_node(0);
    let b = g.add_node(0);
    g.add_connection(a, 0, b, 0);
    assert_eq!(g.delete_node(99), Err(CommandError::NodeNotFound(99)));
    assert_eq!(g.nodes().len(), 2);
    assert_eq!(g.delete_node(a), Ok(()));
    assert!(!g.contains_node(a));
    assert!(g.connections().is_empty());
}

#[test]
fn connect_checks_source_before_target() {
    let mut g: Graph<u8> = Graph::new();
    let a = g.add_node(0);
    assert_eq!(g.connect_nodes(50, 0, 60, 0), Err(CommandError::SourceNotFound(50)));
    assert_eq!(g.connect_nodes(a, 0, 60, 0), Err(CommandError::TargetNotFound(60)));
    assert!(g.connections().is_empty());
    let b = g.add_node(0);
    assert_eq!(g.connect_nodes(a, 1, b, 2), Ok(()));
    assert_eq!(g.input_sources(b, 3), vec![None, None, Some((a, 1))]);
}

#[test]
fn workflow_wires_by_position_and_skips_bad_positions() {
    let mut g: Graph<&str> = Graph::new();
    g.add_node("existing");
    let conns = vec![
        WorkflowConn { from_index: 0, from_port: 0, to_index: 1, to_port: 0 },
        WorkflowConn { from_index: 5, from_port: 0, to_index: 1, to_port: 1 },
        WorkflowConn { from_index: 1, from_port: 2, to_index: 2, to_port: 0 },
    ];
    let ids = g.add_workflow(vec!["osc", "gain", "speaker"], &conns);
    assert_eq!(ids, vec![2, 3, 4]);
    assert_eq!(g.node(3), Some(&"gain"));
    assert_eq!(g.connections().len(), 2);
    assert_eq!(g.input_sources(3, 2), vec![Some((2, 0)), None]);
    assert_eq!(g.input_sources(4, 1), vec![Some((3, 2))]);
}

#[test]
fn workflow_later_wire_to_same_input_wins() {
    let mut g: Graph<u8> = Graph::new();
    let conns = vec![
        WorkflowConn { from_index: 0, from_port: 0, to_index: 2, to_port: 0 },
        WorkflowConn { from_index: 1, from_port: 0, to_index: 2, to_port: 0 },
    ];
    let ids = g.add_workflow(vec![0, 0, 0], &conns);
    assert_eq!(g.input_sources(ids[2], 1), vec![Some((ids[1], 0))]);
}

#[test]
fn parse_simple_tools() {
    assert!(matches!(parse_tool_call("list_node_types", no_args()), Ok(McpCommand::ListNodeTypes)));
    assert!(matches!(parse_tool_call("list_nodes", no_args()), Ok(McpCommand::ListNodes)));
    assert!(matches!(parse_tool_call("list_connections", no_args()), Ok(McpCommand::ListConnections)));
    assert!(matches!(
        parse_tool_call("get_port_values", no_args()),
        Ok(McpCommand::GetPortValues { node_id: None })
    ));
    assert!(matches!(
        parse_tool_call("get_port_values", ToolArgs { node_id: Some(4), ..no_args() }),
        Ok(McpCommand::GetPortValues { node_id: Some(4) })
    ));
}

#[test]
fn parse_create_node() {
    match parse_tool_call("create_node", ToolArgs { node_type: Some("Slider".to_string()), ..no_args() }) {
        Ok(McpCommand::CreateNode { node_type }) => assert_eq!(node_type, "Slider"),
        _ => panic!("expected create_node"),
    }
    assert_eq!(err(parse_tool_call("create_node", no_args())), "Missing 'type' parameter");
}

#[test]
fn parse_node_id_tools() {
    assert!(matches!(
        parse_tool_call("delete_node", ToolArgs { node_id: Some(3), ..no_args() }),
        Ok(McpCommand::DeleteNode { node_id: 3 })
    ));
    assert!(matches!(
        parse_tool_call("get_node", ToolArgs { node_id: Some(8), ..no_args() }),
        Ok(McpCommand::GetNode { node_id: 8 })
    ));
    assert_eq!(err(parse_tool_call("delete_node", no_args())), "Missing 'node_id'");
    assert_eq!(err(parse_tool_call("get_node", no_args())), "Missing 'node_id'");
}

#[test]
fn parse_update_node_needs_properties() {
    assert_eq!(err(parse_tool_call("update_node", no_args())), "Missing 'node_id'");
    assert_eq!(
        err(parse_tool_call("update_node", ToolArgs { node_id: Some(2), ..no_args() })),
        "Missing 'properties'"
    );
    assert!(matches!(
        parse_tool_call("update_node", ToolArgs { node_id: Some(2), has_properties: true, ..no_args() }),
        Ok(McpCommand::UpdateNode { node_id: 2 })
    ));
}

#[test]
fn parse_wire_tools() {
    assert!(matches!(
        parse_tool_call("connect", wire_args()),
        Ok(McpCommand::Connect { from_node: 1, from_port: 2, to_node: 3, to_port: 4 })
    ));
    assert!(matches!(
        parse_tool_call("disconnect", wire_args()),
        Ok(McpCommand::Disconnect { from_node: 1, from_port: 2, to_node: 3, to_port: 4 })
    ));
    assert_eq!(err(parse_tool_call("connect", ToolArgs { from_node: None, ..wire_args() })), "Missing 'from_node'");
    assert_eq!(err(parse_tool_call("connect", ToolArgs { from_port: None, ..wire_args() })), "Missing 'from_port'");
    assert_eq!(err(parse_tool_call("disconnect", ToolArgs { to_node: None, ..wire_args() })), "Missing 'to_node'");
    assert_eq!(err(parse_tool_call("disconnect", ToolArgs { to_port: None, ..wire_args() })), "Missing 'to_port'");
    // the first missing member is the one reported
    assert_eq!(err(parse_tool_call("connect", no_args())), "Missing 'from_node'");
}

#[test]
fn parse_project_tools() {
    match parse_tool_call("save_project", ToolArgs { path: Some("/tmp/p".to_string()), ..no_args() }) {
        Ok(McpCommand::SaveProject { path }) => assert_eq!(path, "/tmp/p"),
        _ => panic!("expected save_project"),
    }
    match parse_tool_call("load_project", ToolArgs { path: Some("x.json".to_string()), ..no_args() }) {
        Ok(McpCommand::LoadProject { path }) => assert_eq!(path, "x.json"),
        _ => panic!("expected load_project"),
    }
    assert_eq!(err(parse_tool_call("save_project", no_args())), "Missing 'path'");
    assert_eq!(err(parse_tool_call("load_project", no_args())), "Missing 'path'");
}

#[test]
fn parse_create_workflow() {
    assert_eq!(err(parse_tool_call("create_workflow", no_args())), "Missing or invalid 'nodes' array");
    let args = ToolArgs { workflow_nodes: Some(vec!["Slider".to_string(), "Display".to_string()]), ..no_args() };
    match parse_tool_call("create_workflow", args) {
        Ok(McpCommand::CreateWorkflow { node_types, connections }) => {
            assert_eq!(node_types, vec!["Slider".to_string(), "Display".to_string()]);
            assert!(connections.is_empty());
        },
        _ => panic!("expected create_workflow"),
    }
    let args = ToolArgs {
        workflow_nodes: Some(vec![]),
        workflow_conns: Some(vec![WorkflowConn { from_index: 0, from_port: 1, to_index: 2, to_port: 3 }]),
        ..no_args()
    };
    match parse_tool_call("create_workflow", args) {
        Ok(McpCommand::CreateWorkflow { connections, .. }) => {
            assert_eq!(connections.len(), 1);
            assert_eq!(connections[0].to_port, 3);
        },
        _ => panic!("expected create_workflow"),
    }
}

#[test]
fn parse_unknown_tool() {
    assert_eq!(err(parse_tool_call("frobnicate", no_args())), "Unknown tool: frobnicate");
    assert_eq!(err(parse_tool_call("", no_args())), "Unknown tool: ");
}

#[test]
fn node_kinds_found_by_title_ignoring_case() {
    assert!(eq_ignoring_case("Text Editor", "tEXT eDITOR"));
    assert!(!eq_ignoring_case("Add", "Addd"));
    assert!(!eq_ignoring_case("Add", "A d"));
    assert!(eq_ignoring_case("Ünï", "Ünï"));
    assert!(!eq_ignoring_case("Ü", "ü"));
    let kinds = vec![NodeType::Slider, NodeType::Add, NodeType::Multiply];
    assert_eq!(find_by_title(&kinds, "add"), Some(1));
    assert_eq!(find_by_title(&kinds, "MULTIPLY"), Some(2));
    assert_eq!(find_by_title(&kinds, "divide"), None);
    let names = vec!["slider".to_string(), "Add".to_string(), "nope".to_string(), "add".to_string()];
    let r = resolve_titles(&kinds, &names);
    assert_eq!(r.found, vec![0, 1]);
    assert_eq!(r.unknown, Some(2));
    let ok = resolve_titles(&kinds, &vec!["multiply".to_string(), "SLIDER".to_string()]);
    assert_eq!(ok.found, vec![2, 0]);
    assert_eq!(ok.unknown, None);
}

#[test]
fn protocol_lines_are_read_by_method() {
    assert!(matches!(rpc_action("   \t"), RpcAction::Skip));
    assert!(blank_line("\u{3000} \n"));
    assert!(!blank_line(" x "));
    assert!(matches!(rpc_action("{not json"), RpcAction::ParseError));
    match rpc_action(r#"{"jsonrpc":"2.0","id":7,"method":"initialize"}"#) {
        RpcAction::Initialize { id: JsonNode::Scalar(c) } => assert_eq!(c, "7"),
        _ => panic!("expected initialize"),
    }
    assert!(matches!(rpc_action(r#"{"method":"notifications/initialized"}"#), RpcAction::Notification));
    match rpc_action(r#"{"id":"a","method":"tools/list"}"#) {
        RpcAction::ListTools { id: JsonNode::Text(t) } => assert_eq!(t, "a"),
        _ => panic!("expected tools/list"),
    }
    match rpc_action(r#"{"id":1,"method":"tools/call","params":{"name":"get_graph","arguments":{"x":1}}}"#) {
        RpcAction::CallTool { id: JsonNode::Scalar(c), name, arguments: Some(JsonNode::Object(_, text)) } => {
            assert_eq!(c, "1");
            assert_eq!(name, "get_graph");
            assert_eq!(text, r#"{"x":1}"#);
        },
        _ => panic!("expected tools/call"),
    }
    match rpc_action(r#"{"id":2,"method":"tools/call"}"#) {
        RpcAction::CallTool { name, arguments: None, .. } => assert_eq!(name, ""),
        _ => panic!("expected tools/call without params"),
    }
    match rpc_action(r#"{"method":"bogus"}"#) {
        RpcAction::UnknownMethod { id: JsonNode::Null, method } => assert_eq!(method, "bogus"),
        _ => panic!("expected unknown method"),
    }
    match rpc_action("[1,2]") {
        RpcAction::UnknownMethod { id: JsonNode::Null, method } => assert_eq!(method, ""),
        _ => panic!("expected unknown method"),
    }
    assert_eq!(unknown_method_message("x/y"), "Unknown method: x/y");
}

#[test]
fn a_workflow_with_an_unknown_node_changes_nothing() {
    let mut g: Graph<u8> = Graph::new();
    let a = g.add_node(1);
    let conns = vec![WorkflowConn { from_index: 0, from_port: 0, to_index: 1, to_port: 0 }];
    assert_eq!(g.create_workflow(vec![Some(2), None, Some(3)], &conns), Err(1));
    assert_eq!(g.nodes().len(), 1);
    assert!(g.connections().is_empty());
    let ids = g.create_workflow(vec![Some(2), Some(3)], &conns).unwrap();
    assert_eq!(ids, vec![a + 1, a + 2]);
    assert_eq!(g.input_sources(a + 2, 1), vec![Some((a + 1, 0))]);
}
