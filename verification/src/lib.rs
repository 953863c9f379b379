//! A graph workflow runtime with a superstep execution engine: workflows of
//! named nodes joined by edges, conditional routes and fork/join groups, and
//! applications of actors exchanging values over channels.
pub mod compiled_graph;
pub mod errors;
pub mod graph;
pub mod hooks;
pub mod keyed;
pub mod order;
pub mod pregel;
pub mod text;

pub use compiled_graph::CompiledGraph;
pub use errors::{ChannelError, GraphError, GraphflowError, PregelError};
pub use graph::{BranchFunction, Graph, NodeFunction};
pub use pregel::{
    BinaryOperatorAggregate, Channel, ChannelValues, ChannelWriteEntry, EphemeralValue, LastValue,
    NodeBuilder, Pregel, PregelNode, Topic,
};
