//! What every field of a simulation offers to the scheduler.
use vstd::prelude::*;

verus! {

/// A container of simulation state with a write generation, which the
/// operations of a step change, and a read generation, which readers see. The
/// scheduler publishes the write generation at the points it chooses.
pub trait Field {
    /// Publishes the write generation.
    fn update(&mut self);

    /// The hook for fields that publish late. A field that does not defer
    /// anything publishes here as `update` does.
    fn lazy_update(&mut self);
}

} // verus!
