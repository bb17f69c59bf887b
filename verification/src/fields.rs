//! The hypergraph field and the containers it is built on.
pub mod field;
pub mod hedge;
pub mod hnetwork;
pub mod laws;
pub mod lists;
pub mod node;
pub mod state;
pub mod tables;
