//! The superstep (bulk synchronous parallel) model: channels, nodes and the
//! engine that runs them.
pub mod channel;
pub mod engine;
pub mod errors;
pub mod node;

pub use channel::{BinaryOperatorAggregate, Channel, ChannelKind, ChannelValue, EphemeralValue, LastValue, Topic};
pub use engine::Pregel;
pub use errors::PregelError;
pub use node::{ChannelValues, ChannelWriteEntry, NodeBuilder, PregelNode};
