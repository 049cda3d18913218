//! The proving side of an elastic argument for entry products.
//!
//! Everything is computed over sequences of scalars that can be held in
//! memory or streamed: [`iterable`] and [`stream`] say what a lazy sequence
//! is, [`psnark`] holds combinators on streams, and [`subprotocols`] holds the
//! sumcheck protocol, with a prover for either way of holding the sequences,
//! and the entry product argument that is reduced to it. Scalars are those of
//! [`field`]; [`congruence`] relates their arithmetic to that of the integers.
pub mod congruence;
pub mod field;
pub mod iterable;
pub mod kzg;
pub mod psnark;
pub mod stream;
pub mod subprotocols;
