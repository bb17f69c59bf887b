//! The decisions of a distributed genetic search over simulation
//! configurations: one root process and its workers run generation after
//! generation, and everything that crosses between them is a message.
pub mod best;
pub mod coordinator;
pub mod error;
pub mod evaluate;
pub mod gather;
pub mod laws;
pub mod record;
pub mod shard;
pub mod wire;
pub mod worker;
