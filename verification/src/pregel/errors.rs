//! The engine's error type, shared with the rest of the library.
pub use crate::errors::PregelError;
