//! Consistency and coordination core of an agent-based simulation toolkit.
//!
//! `fields` holds the hypergraph field: a node registry and per-node lists of
//! hyperedges, kept in a write generation and a published read generation.
//! `explore` holds the decisions of a distributed genetic search: how a
//! population is cut into shards, how gathered results are put back in order,
//! which record is the best so far, and when the search ends. `scalar` holds
//! the carrier of single-precision numbers that both use for weights and
//! fitness.
pub mod explore;
pub mod fields;
pub mod scalar;
