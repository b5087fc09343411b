//! Resolution of local context documents into an active context: the lookup
//! table that maps short terms to absolute identifiers, container semantics
//! and direction flags.
//!
//! The two central algorithms are context merging (`merge::join_value`), which
//! combines an active context with a local context value and dereferences
//! remote context references with caching and overflow protection, and the
//! reverse branch of term-definition creation (`reverse::run_for_reverse`),
//! which installs inverse-direction property mappings.

pub mod context;
pub mod definition;
pub mod error;
pub mod iri;
pub mod json;
pub mod merge;
pub mod processor;
pub mod reverse;
