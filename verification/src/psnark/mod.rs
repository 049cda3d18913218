//! Streams used by the preprocessing argument.
pub mod streams;
