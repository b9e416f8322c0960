//! Plans the units of a Cargo build as derivations for Nix, one per unit.

pub mod arguments;
pub mod codec;
pub mod compile;
pub mod compile_laws;
pub mod derivation;
pub mod environment;
pub mod fingerprint;
pub mod index_set;
pub mod metadata;
pub mod octets;
pub mod ordering;
pub mod paths;
pub mod plan;
pub mod reach;
pub mod schedule;
pub mod script;
pub mod script_laws;
pub mod session;
pub mod store;
pub mod text;
pub mod unit_graph;
