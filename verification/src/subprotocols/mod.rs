//! The sub-protocols of the argument.
pub mod entryproduct;
pub mod sumcheck;
