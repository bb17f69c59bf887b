//! What a process does with its shard: it runs each individual and records
//! the fitness that the run gave.
use crate::explore::error::ExploreError;
use crate::explore::record::GenerationRecord;
use crate::scalar::Real32;
use vstd::prelude::*;

verus! {

/// Whether the run of an individual goes on: the simulation is advanced
/// until the step budget is used up, or until the end condition holds after
/// a step.
pub open spec fn run_goes_on(steps_done: usize, step_budget: usize, ended: bool) -> bool {
    steps_done < step_budget && !(steps_done > 0 && ended)
}

/// Tells whether the simulation of an individual takes another step.
/// `ended` is what the end condition said after the last step taken; before
/// the first step it is not asked and does not count.
pub fn should_step(steps_done: usize, step_budget: usize, ended: bool) -> (go: bool)
    ensures
        go == run_goes_on(steps_done, step_budget, ended),
{
    steps_done < step_budget && !(steps_done > 0 && ended)
}

/// The records that a process emits for its shard: one for each individual,
/// in the order of the shard, numbered from 0.
pub open spec fn local_records_of(
    generation: u32,
    shard: Seq<String>,
    scores: Seq<Real32>,
) -> Seq<GenerationRecord> {
    Seq::new(
        shard.len(),
        |j: int|
            GenerationRecord {
                generation,
                index: j as i32,
                fitness: scores[j],
                individual: Some(shard[j]),
            },
    )
}

/// Whether a shard and the fitness values found for it go together: one
/// value for each individual, and no more individuals than a 32-bit signed
/// index can number.
pub open spec fn scores_fit(shard: Seq<String>, scores: Seq<Real32>) -> bool {
    shard.len() == scores.len() && shard.len() <= i32::MAX
}

/// Builds the records of a shard from the fitness of each of its
/// individuals.
pub fn local_records(generation: u32, shard: &Vec<String>, scores: &Vec<Real32>) -> (result: Result<
    Vec<GenerationRecord>,
    ExploreError,
>)
    ensures
        result.is_ok() == scores_fit(shard@, scores@),
        result.is_ok() ==> result.unwrap()@ == local_records_of(generation, shard@, scores@),
        result.is_err() ==> result.unwrap_err() == ExploreError::ProtocolFailure,
{
    if shard.len() != scores.len() || shard.len() > i32::MAX as usize {
        return Err(ExploreError::ProtocolFailure);
    }
    let mut records: Vec<GenerationRecord> = Vec::with_capacity(shard.len());
    let mut local_index: usize = 0;
    while local_index < shard.len()
        invariant
            local_index <= shard.len(),
            shard.len() == scores.len(),
            shard.len() <= i32::MAX,
            records@ == local_records_of(generation, shard@, scores@).take(local_index as int),
        decreases shard.len() - local_index,
    {
        let result = GenerationRecord::new(
            generation,
            local_index as i32,
            scores[local_index],
            Some(shard[local_index].clone()),
        );
        records.push(result);
        assert(records@ =~= local_records_of(generation, shard@, scores@).take(local_index + 1));
        local_index += 1;
    }
    assert(local_records_of(generation, shard@, scores@).take(shard@.len() as int)
        =~= local_records_of(generation, shard@, scores@));
    Ok(records)
}

} // verus!
