//! Minimises the visibility annotations of Rust source text.
//!
//! Every `pub`, `pub(crate)` and `pub(super)` found in a text is replaced by
//! the least permissive visibility that an oracle, supplied by the caller,
//! still accepts. The library holds the decisions: the lattice of
//! visibilities, the scanner that finds annotations, the rewriting of one
//! annotation, and the search that walks down the lattice. Persisting a
//! candidate and asking the oracle is left to the caller, who reports each
//! verdict back.

pub mod lattice;
pub mod text;
pub mod scanner;
pub mod search;
pub mod pass;
pub mod round;

