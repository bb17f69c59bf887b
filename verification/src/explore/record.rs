//! What one evaluation of one individual leaves behind.
use crate::scalar::Real32;
use vstd::prelude::*;

verus! {

/// The result of running one individual in one generation.
#[derive(Debug, PartialEq, Eq)]
pub struct GenerationRecord {
    /// The generation in which the individual ran; the first is 1.
    pub generation: u32,
    /// The place of the individual: within its shard as long as the record
    /// is with the worker, within the whole population once the root has
    /// gathered it.
    pub index: i32,
    /// The fitness that the run gave the individual.
    pub fitness: Real32,
    /// The individual in serialized form, where the record carries it.
    pub individual: Option<String>,
}

impl GenerationRecord {
    /// A record of the given values.
    pub fn new(generation: u32, index: i32, fitness: Real32, individual: Option<String>) -> (r:
        GenerationRecord)
        ensures
            r.generation == generation,
            r.index == index,
            r.fitness == fitness,
            r.individual == individual,
    {
        GenerationRecord { generation, index, fitness, individual }
    }
}

impl Clone for GenerationRecord {
    fn clone(&self) -> (r: Self)
        ensures
            r == *self,
    {
        let individual = match &self.individual {
            Some(s) => Some(s.clone()),
            None => None,
        };
        GenerationRecord {
            generation: self.generation,
            index: self.index,
            fitness: self.fitness,
            individual,
        }
    }
}

} // verus!
