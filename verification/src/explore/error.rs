//! What can go wrong between the processes of a search.
use vstd::prelude::*;

verus! {

/// A failure of the search. Such a failure is fatal: the processes move in
/// lock-step, so none of them can go on when one message is wrong.
#[derive(Clone, Copy, Debug, PartialEq, Eq, Structural)]
pub enum ExploreError {
    /// A message did not have the shape that the protocol gives it: a shard
    /// is missing or has the wrong size, an index is out of range, or a
    /// message came at the wrong moment.
    ProtocolFailure,
}

} // verus!
