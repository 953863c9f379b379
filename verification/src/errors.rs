//! Error types of the graph runtime, the superstep engine and its channels.
use vstd::prelude::*;
use vstd::std_specs::convert::FromSpecImpl;
use vstd::string::*;

use crate::text::{decimal, decimal_text};

verus! {

/// `std::fmt::Error`, the error a node function reports.
#[verifier::external_type_specification]
#[verifier::external_body]
pub struct ExFmtError(core::fmt::Error);

/// Top-level error enum representing any failure across the framework.
#[derive(Debug, Clone, PartialEq, Eq)]
pub enum GraphflowError {
    /// Errors originating from graph definition, compilation, or invocation.
    Graph(GraphError),
    /// Errors originating from the superstep execution engine.
    Pregel(PregelError),
    /// Errors originating from channel updates.
    Channel(ChannelError),
}

/// Errors of `Graph` compilation, structure validation and traversal.
#[derive(Debug, Clone, PartialEq, Eq)]
pub enum GraphError {
    /// Graph cannot be compiled because the entry point is not set.
    MissingEntryPoint,
    /// Graph cannot be compiled because the finish point is not set.
    MissingFinishPoint,
    /// The specified entry point node does not exist in the graph.
    EntryPointNotFound(String),
    /// The specified finish point node does not exist in the graph.
    FinishPointNotFound(String),
    /// An edge source node does not exist in the graph.
    EdgeSourceNotFound(String),
    /// An edge target node does not exist in the graph.
    EdgeTargetNotFound(String),
    /// A conditional edge source node does not exist in the graph.
    ConditionalEdgeSourceNotFound(String),
    /// A node referenced during invocation was not found in the graph.
    NodeNotFound(String),
    /// No outgoing edge was found for a non-finish node during traversal.
    MissingEdge(String),
    /// A node function failed during execution.
    ExecutionError(String),
    /// A run went on for as many supersteps as a `usize` counts.
    SuperstepLimit,
}

/// Errors of channel operations.
#[derive(Debug, Clone, PartialEq, Eq)]
pub enum ChannelError {
    /// A value supplied to the channel does not match what the channel expects.
    TypeMismatch(String),
    /// Channel was accessed while empty when a value was strictly required.
    Empty(String),
    /// Custom channel update failure.
    Custom(String),
}

/// Errors of superstep execution.
#[derive(Debug, Clone, PartialEq, Eq)]
pub enum PregelError {
    /// The specified channel does not exist in the application.
    ChannelNotFound(String),
    /// The specified node was not found.
    NodeNotFound(String),
    /// A required channel value was missing when read by a node.
    MissingChannel(String),
    /// A written value does not match what the channel expects.
    TypeMismatch(String),
    /// The execution loop reached the maximum superstep count without terminating.
    MaxStepsExceeded(usize),
    /// A user-provided node function returned an error.
    ExecutionError(String),
    /// Application configuration or compilation error.
    CompileError(String),
    /// Invocation inputs were empty or invalid.
    EmptyInput,
    /// An underlying channel operation failed.
    Channel(ChannelError),
}

impl GraphError {
    /// The text this error displays as.
    pub open spec fn spec_message(&self) -> Seq<char> {
        match self {
            GraphError::MissingEntryPoint => "Entry point is not set"@,
            GraphError::MissingFinishPoint => "Finish point is not set"@,
            GraphError::EntryPointNotFound(e) => "Entry point '"@ + e@ + "' does not exist"@,
            GraphError::FinishPointNotFound(f) => "Finish point '"@ + f@ + "' does not exist"@,
            GraphError::EdgeSourceNotFound(f) => "Edge source '"@ + f@ + "' does not exist"@,
            GraphError::EdgeTargetNotFound(t) => "Edge target '"@ + t@ + "' does not exist"@,
            GraphError::ConditionalEdgeSourceNotFound(f) => "Conditional edge source '"@ + f@
                + "' does not exist"@,
            GraphError::NodeNotFound(n) => "Node '"@ + n@ + "' does not exist"@,
            GraphError::MissingEdge(n) => "No outgoing edge found from node '"@ + n@ + "'"@,
            GraphError::ExecutionError(m) => "Node execution failed: "@ + m@,
            GraphError::SuperstepLimit => "Superstep limit reached"@,
        }
    }

    /// The text this error displays as.
    pub fn message(&self) -> (r: String)
        ensures
            r@ == self.spec_message(),
    {
        match self {
            GraphError::MissingEntryPoint => String::from_str("Entry point is not set"),
            GraphError::MissingFinishPoint => String::from_str("Finish point is not set"),
            GraphError::EntryPointNotFound(e) => quoted("Entry point '", e, "' does not exist"),
            GraphError::FinishPointNotFound(f) => quoted("Finish point '", f, "' does not exist"),
            GraphError::EdgeSourceNotFound(f) => quoted("Edge source '", f, "' does not exist"),
            GraphError::EdgeTargetNotFound(t) => quoted("Edge target '", t, "' does not exist"),
            GraphError::ConditionalEdgeSourceNotFound(f) => quoted(
                "Conditional edge source '",
                f,
                "' does not exist",
            ),
            GraphError::NodeNotFound(n) => quoted("Node '", n, "' does not exist"),
            GraphError::MissingEdge(n) => quoted("No outgoing edge found from node '", n, "'"),
            GraphError::ExecutionError(m) => prefixed("Node execution failed: ", m),
            GraphError::SuperstepLimit => String::from_str("Superstep limit reached"),
        }
    }

    /// Whether this error displays as `other`.
    pub fn eq_message(&self, other: &str) -> (r: bool)
        ensures
            r == (self.spec_message() == other@),
    {
        let mine = self.message();
        let theirs = other.to_owned();
        mine == theirs
    }

    /// The error for a node function that reported `err`.
    pub fn from_fmt_error(err: core::fmt::Error) -> (r: GraphError)
        ensures
            r is ExecutionError,
    {
        GraphError::ExecutionError(fmt_error_text(&err))
    }
}

/// The text that `std::fmt::Error` displays as (its `to_string`); what the
/// text is, is left unsaid here.
#[verifier::external_body]
fn fmt_error_text(err: &core::fmt::Error) -> String {
    err.to_string()
}

/// `prefix`, then `rest`.
fn prefixed(prefix: &str, rest: &String) -> (r: String)
    ensures
        r@ == prefix@ + rest@,
{
    let mut r = String::from_str(prefix);
    r.append(rest.as_str());
    r
}

/// `prefix`, then `middle`, then `suffix`.
fn quoted(prefix: &str, middle: &String, suffix: &str) -> (r: String)
    ensures
        r@ == prefix@ + middle@ + suffix@,
{
    let mut r = String::from_str(prefix);
    r.append(middle.as_str());
    r.append(suffix);
    r
}

impl ChannelError {
    /// The text this error displays as.
    pub open spec fn spec_message(&self) -> Seq<char> {
        match self {
            ChannelError::TypeMismatch(m) => "Type mismatch in channel: "@ + m@,
            ChannelError::Empty(c) => "Channel '"@ + c@ + "' is empty"@,
            ChannelError::Custom(m) => "Channel error: "@ + m@,
        }
    }

    /// The text this error displays as.
    pub fn message(&self) -> (r: String)
        ensures
            r@ == self.spec_message(),
    {
        match self {
            ChannelError::TypeMismatch(m) => prefixed("Type mismatch in channel: ", m),
            ChannelError::Empty(c) => quoted("Channel '", c, "' is empty"),
            ChannelError::Custom(m) => prefixed("Channel error: ", m),
        }
    }
}

impl PregelError {
    /// The text this error displays as.
    pub open spec fn spec_message(&self) -> Seq<char> {
        match self {
            PregelError::ChannelNotFound(c) => "Channel not found: '"@ + c@ + "'"@,
            PregelError::NodeNotFound(n) => "Node not found: '"@ + n@ + "'"@,
            PregelError::MissingChannel(c) => "Missing value for channel: '"@ + c@ + "'"@,
            PregelError::TypeMismatch(m) => "Type mismatch: "@ + m@,
            PregelError::MaxStepsExceeded(s) => "Maximum supersteps exceeded ("@ + decimal(
                *s as nat,
            ) + ")"@,
            PregelError::ExecutionError(m) => "Execution error: "@ + m@,
            PregelError::CompileError(m) => "Compile error: "@ + m@,
            PregelError::EmptyInput => "Input is empty or invalid"@,
            PregelError::Channel(e) => e.spec_message(),
        }
    }

    /// The text this error displays as.
    pub fn message(&self) -> (r: String)
        ensures
            r@ == self.spec_message(),
    {
        match self {
            PregelError::ChannelNotFound(c) => quoted("Channel not found: '", c, "'"),
            PregelError::NodeNotFound(n) => quoted("Node not found: '", n, "'"),
            PregelError::MissingChannel(c) => quoted("Missing value for channel: '", c, "'"),
            PregelError::TypeMismatch(m) => prefixed("Type mismatch: ", m),
            PregelError::MaxStepsExceeded(s) => {
                let digits = decimal_text(*s);
                quoted("Maximum supersteps exceeded (", &digits, ")")
            },
            PregelError::ExecutionError(m) => prefixed("Execution error: ", m),
            PregelError::CompileError(m) => prefixed("Compile error: ", m),
            PregelError::EmptyInput => String::from_str("Input is empty or invalid"),
            PregelError::Channel(e) => e.message(),
        }
    }
}

impl GraphflowError {
    /// The text this error displays as: that of the error it wraps.
    pub open spec fn spec_message(&self) -> Seq<char> {
        match self {
            GraphflowError::Graph(e) => e.spec_message(),
            GraphflowError::Pregel(e) => e.spec_message(),
            GraphflowError::Channel(e) => e.spec_message(),
        }
    }

    /// The text this error displays as: that of the error it wraps.
    pub fn message(&self) -> (r: String)
        ensures
            r@ == self.spec_message(),
    {
        match self {
            GraphflowError::Graph(e) => e.message(),
            GraphflowError::Pregel(e) => e.message(),
            GraphflowError::Channel(e) => e.message(),
        }
    }
}

impl From<GraphError> for GraphflowError {
    fn from(err: GraphError) -> (r: Self) {
        GraphflowError::Graph(err)
    }
}

impl FromSpecImpl<GraphError> for GraphflowError {
    open spec fn obeys_from_spec() -> bool {
        true
    }

    open spec fn from_spec(v: GraphError) -> Self {
        GraphflowError::Graph(v)
    }
}

impl From<PregelError> for GraphflowError {
    fn from(err: PregelError) -> (r: Self) {
        GraphflowError::Pregel(err)
    }
}

impl FromSpecImpl<PregelError> for GraphflowError {
    open spec fn obeys_from_spec() -> bool {
        true
    }

    open spec fn from_spec(v: PregelError) -> Self {
        GraphflowError::Pregel(v)
    }
}

impl From<ChannelError> for GraphflowError {
    fn from(err: ChannelError) -> (r: Self) {
        GraphflowError::Channel(err)
    }
}

impl FromSpecImpl<ChannelError> for GraphflowError {
    open spec fn obeys_from_spec() -> bool {
        true
    }

    open spec fn from_spec(v: ChannelError) -> Self {
        GraphflowError::Channel(v)
    }
}

impl From<String> for GraphError {
    fn from(msg: String) -> (r: Self) {
        GraphError::ExecutionError(msg)
    }
}

impl FromSpecImpl<String> for GraphError {
    open spec fn obeys_from_spec() -> bool {
        true
    }

    open spec fn from_spec(v: String) -> Self {
        GraphError::ExecutionError(v)
    }
}

impl From<String> for ChannelError {
    fn from(msg: String) -> (r: Self) {
        ChannelError::Custom(msg)
    }
}

impl FromSpecImpl<String> for ChannelError {
    open spec fn obeys_from_spec() -> bool {
        true
    }

    open spec fn from_spec(v: String) -> Self {
        ChannelError::Custom(v)
    }
}

impl From<String> for PregelError {
    fn from(msg: String) -> (r: Self) {
        PregelError::ExecutionError(msg)
    }
}

impl FromSpecImpl<String> for PregelError {
    open spec fn obeys_from_spec() -> bool {
        true
    }

    open spec fn from_spec(v: String) -> Self {
        PregelError::ExecutionError(v)
    }
}

impl From<ChannelError> for PregelError {
    /// A channel's type mismatch becomes the engine's type mismatch with the
    /// same text; every other channel error is wrapped.
    fn from(err: ChannelError) -> (r: Self) {
        match err {
            ChannelError::TypeMismatch(msg) => PregelError::TypeMismatch(msg),
            other => PregelError::Channel(other),
        }
    }
}

impl FromSpecImpl<ChannelError> for PregelError {
    open spec fn obeys_from_spec() -> bool {
        true
    }

    open spec fn from_spec(v: ChannelError) -> Self {
        match v {
            ChannelError::TypeMismatch(msg) => PregelError::TypeMismatch(msg),
            other => PregelError::Channel(other),
        }
    }
}

} // verus!
