//! Streams of the lookup argument.
pub mod set_stream;
