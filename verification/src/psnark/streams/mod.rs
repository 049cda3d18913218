//! Stream combinators.
pub mod hadamard_stream;
pub mod plookup;
