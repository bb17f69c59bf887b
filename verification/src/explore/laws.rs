//! What holds of the root and the workers of a search taken together.
use crate::explore::best::reaches;
use crate::explore::coordinator::CoordinatorState;
use crate::explore::coordinator::Decision;
use crate::explore::coordinator::Event;
use crate::explore::coordinator::Phase;
use crate::explore::coordinator::Termination;
use crate::explore::evaluate::local_records_of;
use crate::explore::evaluate::scores_fit;
use crate::explore::gather::corrected;
use crate::explore::gather::in_shard;
use crate::explore::gather::lemma_corrected_indices_are_places;
use crate::explore::gather::lemma_corrected_is_unique;
use crate::explore::gather::lemma_offsets_monotone;
use crate::explore::gather::lemma_place_has_shard;
use crate::explore::gather::lemma_start_of_place;
use crate::explore::gather::placed;
use crate::explore::gather::well_shaped;
use crate::explore::record::GenerationRecord;
use crate::explore::shard::lemma_offsets_step;
use crate::explore::shard::lemma_shards_cover;
use crate::explore::shard::shard_sizes_of;
use crate::explore::shard::shards_of;
use crate::explore::shard::total;
use crate::explore::worker::WorkerDecision;
use crate::explore::worker::WorkerEvent;
use crate::explore::worker::WorkerPhase;
use crate::explore::worker::WorkerState;
use crate::scalar::Real32;
use vstd::prelude::*;

verus! {

/// A worker numbers the records of its shard from 0, in the order of the
/// shard, and stamps each with the generation.
pub proof fn lemma_local_records_are_numbered(
    generation: u32,
    shard: Seq<String>,
    scores: Seq<Real32>,
    j: int,
)
    requires
        scores_fit(shard, scores),
        0 <= j < shard.len(),
    ensures
        local_records_of(generation, shard, scores).len() == shard.len(),
        local_records_of(generation, shard, scores)[j].index == j,
        local_records_of(generation, shard, scores)[j].generation == generation,
        local_records_of(generation, shard, scores)[j].fitness == scores[j],
        local_records_of(generation, shard, scores)[j].individual == Some(shard[j]),
{
}

/// What the gather hands the root: the records of each worker, those of a
/// worker together and in its order, the workers in the order of their
/// ranks.
pub open spec fn gathered_of(
    generation: u32,
    shards: Seq<Seq<String>>,
    scores: Seq<Seq<Real32>>,
) -> Seq<GenerationRecord>
    decreases shards.len(),
{
    if shards.len() == 0 {
        Seq::empty()
    } else {
        gathered_of(generation, shards.drop_last(), scores.drop_last()) + local_records_of(
            generation,
            shards.last(),
            scores.last(),
        )
    }
}

/// The sizes of a list of shards.
pub open spec fn sizes_of(shards: Seq<Seq<String>>) -> Seq<usize> {
    Seq::new(shards.len(), |w: int| shards[w].len() as usize)
}

/// In what the gather hands the root, the `j`-th record of worker `w`
/// stands at the start of the worker's shard plus `j`.
pub proof fn lemma_gathered_places(
    generation: u32,
    shards: Seq<Seq<String>>,
    scores: Seq<Seq<Real32>>,
    w: int,
    j: int,
)
    requires
        scores.len() == shards.len(),
        forall|a: int| 0 <= a < shards.len() ==> scores_fit(#[trigger] shards[a], scores[a]),
        in_shard(sizes_of(shards), w, j),
    ensures
        gathered_of(generation, shards, scores).len() == total(sizes_of(shards)),
        gathered_of(generation, shards, scores)[placed(sizes_of(shards), w, j)]
            == local_records_of(generation, shards[w], scores[w])[j],
    decreases shards.len(),
{
    let sizes = sizes_of(shards);
    let last = shards.len() - 1;
    let rest = shards.drop_last();
    assert(sizes_of(rest) =~= sizes.drop_last());
    assert(sizes.take(last) =~= sizes.drop_last());
    lemma_gathered_len(generation, rest, scores.drop_last());
    lemma_offsets_step(sizes, w);
    if w < last {
        assert(sizes_of(rest).take(w) =~= sizes.take(w));
        assert(in_shard(sizes_of(rest), w, j));
        lemma_gathered_places(generation, rest, scores.drop_last(), w, j);
        lemma_offsets_step(sizes_of(rest), w);
        lemma_offsets_monotone(sizes_of(rest), w + 1, rest.len() as int);
        assert(sizes_of(rest).take(rest.len() as int) =~= sizes_of(rest));
    }
    lemma_gathered_len(generation, shards, scores);
}

/// The gather hands the root as many records as the shards hold
/// individuals.
pub proof fn lemma_gathered_len(generation: u32, shards: Seq<Seq<String>>, scores: Seq<Seq<Real32>>)
    requires
        scores.len() == shards.len(),
        forall|a: int| 0 <= a < shards.len() ==> scores_fit(#[trigger] shards[a], scores[a]),
    ensures
        gathered_of(generation, shards, scores).len() == total(sizes_of(shards)),
    decreases shards.len(),
{
    if shards.len() > 0 {
        assert(sizes_of(shards.drop_last()) =~= sizes_of(shards).drop_last());
        lemma_gathered_len(generation, shards.drop_last(), scores.drop_last());
    }
}

/// Gather and correction give the root the records in the order of the
/// population, whatever the number of processes: the record at place `g`
/// has the index `g` and belongs to the individual at place `g`. So the
/// indices of a generation are 0, 1, and so on up to the last, each once.
pub proof fn lemma_gather_restores_population_order(
    generation: u32,
    population: Seq<String>,
    p: usize,
    scores: Seq<Seq<Real32>>,
    g: int,
)
    requires
        p >= 1,
        population.len() <= i32::MAX,
        scores.len() == p,
        forall|w: int|
            0 <= w < p ==> (#[trigger] scores[w]).len() == shards_of(population, p)[w].len(),
        0 <= g < population.len(),
    ensures
        ({
            let sizes = shard_sizes_of(population.len() as usize, p);
            let records = gathered_of(generation, shards_of(population, p), scores);
            &&& well_shaped(records, sizes)
            &&& corrected(records, sizes).len() == population.len()
            &&& corrected(records, sizes)[g].index == g
            &&& corrected(records, sizes)[g].generation == generation
            &&& corrected(records, sizes)[g].individual == Some(population[g])
        }),
{
    let n = population.len() as usize;
    let sizes = shard_sizes_of(n, p);
    let shards = shards_of(population, p);
    let records = gathered_of(generation, shards, scores);
    lemma_shards_cover(n, p);
    assert forall|w: int| 0 <= w < p implies (#[trigger] shards[w]).len() == sizes[w]
        && scores_fit(shards[w], scores[w]) by {
        lemma_offsets_step(sizes, w);
        lemma_offsets_monotone(sizes, w + 1, p as int);
    }
    assert(sizes_of(shards) =~= sizes);
    lemma_gathered_len(generation, shards, scores);
    assert forall|w: int, j: int| in_shard(sizes, w, j) implies (#[trigger] records[placed(
        sizes,
        w,
        j,
    )]).index == j by {
        lemma_gathered_places(generation, shards, scores, w, j);
    }
    let out = corrected(records, sizes);
    lemma_corrected_is_unique(out, records, sizes);
    lemma_corrected_indices_are_places(out, records, sizes, g);
    let at = lemma_place_has_shard(sizes, g);
    lemma_gathered_places(generation, shards, scores, at.0, at.1);
    lemma_start_of_place(sizes, at.0, at.1);
    lemma_offsets_step(sizes, at.0);
    lemma_offsets_monotone(sizes, at.0 + 1, p as int);
}

/// When a gathered record has at least the desired fitness, the root
/// broadcasts a set flag and ends the search after the broadcast, and a
/// worker that receives the flag ends it too: all processes end in the
/// generation in which the fitness was reached. When no record has it, the
/// flag is not set, the root goes on to selection, and the worker to the
/// next generation.
pub proof fn lemma_flag_ends_every_process(
    root: CoordinatorState,
    records: Vec<GenerationRecord>,
    worker: WorkerState,
)
    requires
        root.phase == Phase::Evaluate,
        well_shaped(records@, root.sizes()),
        worker.phase == WorkerPhase::Flag,
        worker.config == root.config,
        worker.generation == root.generation,
    ensures
        ({
            let reached = reaches(
                corrected(records@, root.sizes()),
                root.config.desired_fitness,
            );
            let gathered = root.next(Event::Gathered(records));
            let after = gathered.0.next(Event::Broadcast);
            let told = worker.next(WorkerEvent::Flag(reached));
            &&& gathered.1 == Decision::Broadcast(reached)
            &&& gathered.0.generation == root.generation
            &&& after.0.generation == root.generation
            &&& told.0.generation == root.generation || !reached
            &&& reached ==> after.1 == Decision::Terminate(Termination::DesiredFitness)
                && after.0.phase == Phase::Terminate && told.1 == WorkerDecision::Terminate(
                Termination::DesiredFitness,
            ) && told.0.phase == WorkerPhase::Terminate
            &&& !reached ==> after.0.phase == Phase::Select && told == worker.begin()
        }),
{
}

/// The root and a worker that count the same generation under the same
/// settings start the next generation together: when the root dispatches,
/// the worker waits for its shard, and both count one generation more; when
/// the worker finds the number of generations used up, the root does not
/// dispatch.
pub proof fn lemma_generations_start_together(root: CoordinatorState, worker: WorkerState)
    requires
        worker.config == root.config,
        worker.generation == root.generation,
    ensures
        root.dispatch().1 is Dispatch ==> worker.begin().1 == WorkerDecision::Receive
            && worker.begin().0.generation == root.dispatch().0.generation
            && root.dispatch().0.generation == root.generation + 1,
        worker.begin().1 is Terminate ==> !(root.dispatch().1 is Dispatch),
{
}

} // verus!
