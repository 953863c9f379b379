use graphflow::compiled_graph::CompiledGraph;
use graphflow::text::{decimal_text, parse_targets};
use graphflow::{ChannelError, Graph, GraphError, GraphflowError, PregelError};

fn noop(_s: &mut u32) -> Result<(), std::fmt::Error> {
    Ok(())
}

// Fields are split at commas, trimmed, and empty ones dropped.
#[test]
fn test_parse_targets() {
    assert_eq!(parse_targets("a, b,c"), vec!["a", "b", "c"]);
    assert_eq!(parse_targets("  single  "), vec!["single"]);
    assert_eq!(parse_targets(" , ,x,,"), vec!["x"]);
    assert!(parse_targets("").is_empty());
    assert!(parse_targets(" \t ").is_empty());
    assert_eq!(parse_targets("\u{3000}wide\u{3000}, y"), vec!["wide", "y"]);
}

#[test]
fn test_decimal_text() {
    assert_eq!(decimal_text(0), "0");
    assert_eq!(decimal_text(7), "7");
    assert_eq!(decimal_text(25), "25");
    assert_eq!(decimal_text(1000), "1000");
    assert_eq!(decimal_text(usize::MAX), usize::MAX.to_string());
}

// The text of each error, as each error type displays it.
#[test]
fn test_graph_error_messages() {
    assert_eq!(GraphError::MissingEntryPoint.message(), "Entry point is not set");
    assert_eq!(GraphError::MissingFinishPoint.message(), "Finish point is not set");
    assert_eq!(
        GraphError::EntryPointNotFound("e".to_string()).message(),
        "Entry point 'e' does not exist"
    );
    assert_eq!(
        GraphError::FinishPointNotFound("f".to_string()).message(),
        "Finish point 'f' does not exist"
    );
    assert_eq!(
        GraphError::EdgeSourceNotFound("s".to_string()).message(),
        "Edge source 's' does not exist"
    );
    assert_eq!(
        GraphError::EdgeTargetNotFound("t".to_string()).message(),
        "Edge target 't' does not exist"
    );
    assert_eq!(
        GraphError::ConditionalEdgeSourceNotFound("c".to_string()).message(),
        "Conditional edge source 'c' does not exist"
    );
    assert_eq!(GraphError::NodeNotFound("n".to_string()).message(), "Node 'n' does not exist");
    assert_eq!(
        GraphError::MissingEdge("m".to_string()).message(),
        "No outgoing edge found from node 'm'"
    );
    assert_eq!(
        GraphError::ExecutionError("boom".to_string()).message(),
        "Node execution failed: boom"
    );
    assert!(GraphError::MissingEntryPoint.eq_message("Entry point is not set"));
    assert!(!GraphError::MissingEntryPoint.eq_message("Finish point is not set"));
}

#[test]
fn test_channel_and_pregel_error_messages() {
    assert_eq!(
        ChannelError::TypeMismatch("x".to_string()).message(),
        "Type mismatch in channel: x"
    );
    assert_eq!(ChannelError::Empty("c".to_string()).message(), "Channel 'c' is empty");
    assert_eq!(ChannelError::Custom("bad".to_string()).message(), "Channel error: bad");
    assert_eq!(
        PregelError::ChannelNotFound("c".to_string()).message(),
        "Channel not found: 'c'"
    );
    assert_eq!(PregelError::NodeNotFound("n".to_string()).message(), "Node not found: 'n'");
    assert_eq!(
        PregelError::MissingChannel("c".to_string()).message(),
        "Missing value for channel: 'c'"
    );
    assert_eq!(PregelError::TypeMismatch("m".to_string()).message(), "Type mismatch: m");
    assert_eq!(
        PregelError::MaxStepsExceeded(25).message(),
        "Maximum supersteps exceeded (25)"
    );
    assert_eq!(PregelError::ExecutionError("e".to_string()).message(), "Execution error: e");
    assert_eq!(PregelError::CompileError("c".to_string()).message(), "Compile error: c");
    assert_eq!(PregelError::EmptyInput.message(), "Input is empty or invalid");
    assert_eq!(
        PregelError::Channel(ChannelError::Empty("q".to_string())).message(),
        "Channel 'q' is empty"
    );
    assert_eq!(
        GraphflowError::Pregel(PregelError::EmptyInput).message(),
        "Input is empty or invalid"
    );
    assert_eq!(
        GraphflowError::Graph(GraphError::MissingEntryPoint).message(),
        "Entry point is not set"
    );
    assert_eq!(
        GraphflowError::Channel(ChannelError::Custom("z".to_string())).message(),
        "Channel error: z"
    );
}

#[test]
fn test_error_conversions() {
    assert_eq!(
        GraphflowError::from(GraphError::MissingEdge("a".to_string())),
        GraphflowError::Graph(GraphError::MissingEdge("a".to_string()))
    );
    assert_eq!(
        GraphflowError::from(PregelError::EmptyInput),
        GraphflowError::Pregel(PregelError::EmptyInput)
    );
    assert_eq!(
        GraphflowError::from(ChannelError::Custom("c".to_string())),
        GraphflowError::Channel(ChannelError::Custom("c".to_string()))
    );
    assert_eq!(
        GraphError::from("oops".to_string()),
        GraphError::ExecutionError("oops".to_string())
    );
    assert_eq!(ChannelError::from("x".to_string()), ChannelError::Custom("x".to_string()));
    assert_eq!(PregelError::from("y".to_string()), PregelError::ExecutionError("y".to_string()));
    assert_eq!(
        PregelError::from(ChannelError::TypeMismatch("t".to_string())),
        PregelError::TypeMismatch("t".to_string())
    );
    assert_eq!(
        PregelError::from(ChannelError::Empty("e".to_string())),
        PregelError::Channel(ChannelError::Empty("e".to_string()))
    );
    let e = GraphError::from_fmt_error(std::fmt::Error);
    assert_eq!(e, GraphError::ExecutionError(std::fmt::Error.to_string()));
}

// A parallel edge stores its targets joined by ", "; reading them back gives
// the targets, and a compiled graph fans out to each of them once.
#[test]
fn test_parallel_edge_round_trip() {
    let mut graph: Graph<u32> = Graph::new();
    graph
        .add_node("a".to_string(), noop)
        .add_node("b".to_string(), noop)
        .add_node("c".to_string(), noop)
        .add_parallel_edge("a".to_string(), vec!["b".to_string(), "c".to_string()]);
    let stored = graph.edge_target("a").unwrap();
    assert_eq!(stored, "b, c");
    assert_eq!(parse_targets(&stored), vec!["b", "c"]);
    graph.set_entry_point("a".to_string()).set_finish_point("c".to_string());
    let compiled: CompiledGraph<u32> = graph.compile().ok().unwrap();
    assert_eq!(compiled.start_nodes(), vec!["a"]);
    let next = compiled.successors(&vec!["a".to_string()], &vec![None]).ok().unwrap();
    assert_eq!(next, vec!["b", "c"]);
    // b and c both lead to c: it appears once
    let mut graph2: Graph<u32> = Graph::new();
    graph2
        .add_node("b".to_string(), noop)
        .add_node("c".to_string(), noop)
        .add_edge("b".to_string(), "c".to_string())
        .add_edge("c".to_string(), "c".to_string())
        .set_entry_point("b, c, b".to_string())
        .set_finish_point("c".to_string());
    let compiled2 = graph2.compile().ok().unwrap();
    assert_eq!(compiled2.start_nodes(), vec!["b", "c"]);
    let joined = compiled2
        .successors(&vec!["b".to_string(), "c".to_string()], &vec![None, None])
        .ok()
        .unwrap();
    assert_eq!(joined, vec!["c"]);
}

// A node with neither edge nor conditional edge has nowhere to go.
#[test]
fn test_successors_missing_edge() {
    let mut graph: Graph<u32> = Graph::new();
    graph
        .add_node("a".to_string(), noop)
        .add_node("z".to_string(), noop)
        .set_entry_point("a".to_string())
        .set_finish_point("z".to_string());
    let compiled = graph.compile().ok().unwrap();
    assert_eq!(
        compiled.successors(&vec!["a".to_string()], &vec![None]).err().unwrap(),
        GraphError::MissingEdge("a".to_string())
    );
    assert_eq!(compiled.invoke(1).err().unwrap(), GraphError::MissingEdge("a".to_string()));
}

#[test]
fn test_superstep_limit_message() {
    assert_eq!(GraphError::SuperstepLimit.message(), "Superstep limit reached");
    assert_ne!(
        GraphError::SuperstepLimit,
        GraphError::ExecutionError("Superstep limit reached".to_string())
    );
}
