//! The root of a search as a state machine.
//!
//! The root does not talk to the workers itself. It is told what happened
//! (an event) and says what is to be done next (an action); whoever runs it
//! sends, receives and calls the genetic operators in between. One
//! generation is: dispatch the shards, gather the results, broadcast
//! whether the desired fitness was reached, select, then mutate and cross
//! over.
use crate::explore::best::best_of;
use crate::explore::best::BestTracker;
use crate::explore::best::lemma_best_of_concat;
use crate::explore::best::reached;
use crate::explore::best::reaches;
use crate::explore::error::ExploreError;
use crate::explore::gather::correct_indices;
use crate::explore::gather::corrected;
use crate::explore::gather::well_shaped;
use crate::explore::record::GenerationRecord;
use crate::explore::shard::lemma_shards_cover;
use crate::explore::shard::partition;
use crate::explore::shard::shard_sizes;
use crate::explore::shard::shard_sizes_of;
use crate::explore::shard::shard_views;
use crate::explore::shard::shards_of;
use crate::scalar::Real32;
use vstd::prelude::*;

verus! {

/// The settings of a search.
#[derive(Clone, Copy, Debug)]
pub struct Config {
    /// The search ends when an individual reaches this fitness.
    pub desired_fitness: Real32,
    /// The number of generations to run at most; 0 for no limit.
    pub generation_num: u32,
    /// The number of steps that the simulation of one individual may take.
    pub step: usize,
}

/// Where the root stands: what it waits for.
#[derive(Clone, Copy, Debug, PartialEq, Eq, Structural)]
pub enum Phase {
    /// The search has not begun; the root waits for the first population.
    Init,
    /// The shards are with the workers; the root waits for their results.
    Evaluate,
    /// The results are in; the root waits for its flag to be broadcast.
    Gather,
    /// The root waits for the selection among the individuals.
    Select,
    /// The root waits for the survivors to be mutated and crossed over.
    Evolve,
    /// The search is over.
    Terminate,
}

/// Why a search ended.
#[derive(Clone, Copy, Debug, PartialEq, Eq, Structural)]
pub enum Termination {
    /// The configured number of generations has run.
    GenerationCap,
    /// An individual reached the desired fitness.
    DesiredFitness,
    /// Selection left one individual or none.
    PopulationCollapse,
    /// There was no individual to run.
    EmptyPopulation,
}

/// What the root is told.
pub enum Event {
    /// The first population has been made.
    Population(Vec<String>),
    /// The results of all workers have been gathered, those of each worker
    /// together, in the order of the workers.
    Gathered(Vec<GenerationRecord>),
    /// The flag has been broadcast.
    Broadcast,
    /// Selection has been made; these individuals survive.
    Selected(Vec<(String, Real32)>),
    /// The survivors have been mutated and crossed over; this is the next
    /// population.
    Evolved(Vec<String>),
}

/// What the root asks for.
pub enum Action {
    /// Send each worker its shard: first the size, then the individuals.
    Dispatch(Vec<Vec<String>>),
    /// Broadcast this flag to all processes: whether the search ends here.
    Broadcast(bool),
    /// Run selection on these individuals with their fitness.
    Select(Vec<(String, Real32)>),
    /// Mutate each of these individuals, then cross the population over.
    Evolve(Vec<String>),
    /// Stop: the search has ended.
    Terminate(Termination),
    /// Stop: the search has failed.
    Fail(ExploreError),
}

/// An action as a mathematical value.
pub enum Decision {
    Dispatch(Seq<Seq<String>>),
    Broadcast(bool),
    Select(Seq<(String, Real32)>),
    Evolve(Seq<String>),
    Terminate(Termination),
    Fail(ExploreError),
}

impl View for Action {
    type V = Decision;

    open spec fn view(&self) -> Decision {
        match self {
            Action::Dispatch(shards) => Decision::Dispatch(shard_views(shards@)),
            Action::Broadcast(flag) => Decision::Broadcast(*flag),
            Action::Select(pairs) => Decision::Select(pairs@),
            Action::Evolve(individuals) => Decision::Evolve(individuals@),
            Action::Terminate(cause) => Decision::Terminate(*cause),
            Action::Fail(error) => Decision::Fail(*error),
        }
    }
}

/// The fitness of each record of a list.
pub open spec fn scores_of(records: Seq<GenerationRecord>) -> Seq<Real32> {
    records.map_values(|r: GenerationRecord| r.fitness)
}

/// The individuals of a population, each with its fitness.
pub open spec fn pairs_of(population: Seq<String>, scores: Seq<Real32>) -> Seq<(String, Real32)> {
    Seq::new(population.len(), |i: int| (population[i], scores[i]))
}

/// The individuals of a list of pairs.
pub open spec fn individuals_of(pairs: Seq<(String, Real32)>) -> Seq<String> {
    pairs.map_values(|p: (String, Real32)| p.0)
}

/// The root as a mathematical value.
pub struct CoordinatorState {
    pub config: Config,
    /// The number of processes, the root among them.
    pub num_procs: usize,
    pub phase: Phase,
    /// The number of the generation that runs, or ran last; 0 before the
    /// first.
    pub generation: u32,
    /// The population of the generation, in its order.
    pub population: Seq<String>,
    /// The fitness of each individual of the population, once gathered.
    pub scores: Seq<Real32>,
    /// All records gathered so far, generation after generation.
    pub history: Seq<GenerationRecord>,
    /// The best record of the history.
    pub best: Option<GenerationRecord>,
    /// The best record of the generation gathered last.
    pub generation_best: Option<GenerationRecord>,
    /// Whether the desired fitness was reached in the generation.
    pub flag: bool,
}

impl CoordinatorState {
    /// The root before the search.
    pub open spec fn initial(config: Config, num_procs: usize) -> CoordinatorState {
        CoordinatorState {
            config,
            num_procs,
            phase: Phase::Init,
            generation: 0,
            population: Seq::empty(),
            scores: Seq::empty(),
            history: Seq::empty(),
            best: None,
            generation_best: None,
            flag: false,
        }
    }

    /// What holds of the root at all times: there is at least one process;
    /// the population fits in memory; the generation counter is within the configured limit; the best
    /// record is the best of the history; and between gather and selection
    /// there is a fitness for each individual.
    pub open spec fn wf(self) -> bool {
        &&& self.num_procs >= 1
        &&& self.population.len() <= usize::MAX
        &&& self.config.generation_num != 0 ==> self.generation <= self.config.generation_num
        &&& self.best == best_of(None, self.history)
        &&& self.phase == Phase::Gather ==> self.scores.len() == self.population.len()
    }

    /// The root stopped where it stands.
    pub open spec fn stopped(self) -> CoordinatorState {
        CoordinatorState { phase: Phase::Terminate, ..self }
    }

    /// The sizes of the shards of the population.
    pub open spec fn sizes(self) -> Seq<usize> {
        shard_sizes_of(self.population.len() as usize, self.num_procs)
    }

    /// The start of a generation. The search ends here if the configured
    /// number of generations has run, if the generation counter is used up,
    /// or if there is no individual. A population too large for the
    /// transport to number is a failure. Otherwise the generation is
    /// counted and the shards go out.
    pub open spec fn dispatch(self) -> (CoordinatorState, Decision) {
        if self.config.generation_num != 0 && self.generation == self.config.generation_num {
            (self.stopped(), Decision::Terminate(Termination::GenerationCap))
        } else if self.population.len() == 0 {
            (self.stopped(), Decision::Terminate(Termination::EmptyPopulation))
        } else if self.generation == u32::MAX {
            (self.stopped(), Decision::Terminate(Termination::GenerationCap))
        } else if self.population.len() > i32::MAX {
            (self.stopped(), Decision::Fail(ExploreError::ProtocolFailure))
        } else {
            (
                CoordinatorState {
                    phase: Phase::Evaluate,
                    generation: (self.generation + 1) as u32,
                    ..self
                },
                Decision::Dispatch(shards_of(self.population, self.num_procs)),
            )
        }
    }

    /// The end of the gather: the records get their places in the
    /// population, join the history, and are shown to the best-record
    /// tracker; the flag says whether one of them reached the desired
    /// fitness. Results of the wrong shape are a failure.
    pub open spec fn gathered(self, records: Seq<GenerationRecord>) -> (
        CoordinatorState,
        Decision,
    ) {
        if well_shaped(records, self.sizes()) {
            let placed = corrected(records, self.sizes());
            let flag = reaches(placed, self.config.desired_fitness);
            (
                CoordinatorState {
                    phase: Phase::Gather,
                    scores: scores_of(placed),
                    history: self.history + placed,
                    best: best_of(self.best, placed),
                    generation_best: best_of(None, placed),
                    flag,
                    ..self
                },
                Decision::Broadcast(flag),
            )
        } else {
            (self.stopped(), Decision::Fail(ExploreError::ProtocolFailure))
        }
    }

    /// After the broadcast: the search ends if the flag is set; otherwise
    /// selection is next.
    pub open spec fn broadcast(self) -> (CoordinatorState, Decision) {
        if self.flag {
            (self.stopped(), Decision::Terminate(Termination::DesiredFitness))
        } else {
            (
                CoordinatorState { phase: Phase::Select, ..self },
                Decision::Select(pairs_of(self.population, self.scores)),
            )
        }
    }

    /// After selection: the search ends if one individual or none is left;
    /// otherwise the survivors are the population, to be mutated and
    /// crossed over.
    pub open spec fn selected(self, survivors: Seq<(String, Real32)>) -> (
        CoordinatorState,
        Decision,
    ) {
        if survivors.len() <= 1 {
            (self.stopped(), Decision::Terminate(Termination::PopulationCollapse))
        } else {
            (
                CoordinatorState {
                    phase: Phase::Evolve,
                    population: individuals_of(survivors),
                    ..self
                },
                Decision::Evolve(individuals_of(survivors)),
            )
        }
    }

    /// What the root does when it is told of an event: the next state and
    /// the action it asks for. An event that the root does not wait for is
    /// a failure.
    pub open spec fn next(self, event: Event) -> (CoordinatorState, Decision) {
        match (self.phase, event) {
            (Phase::Init, Event::Population(population)) => CoordinatorState {
                population: population@,
                ..self
            }.dispatch(),
            (Phase::Evaluate, Event::Gathered(records)) => self.gathered(records@),
            (Phase::Gather, Event::Broadcast) => self.broadcast(),
            (Phase::Select, Event::Selected(survivors)) => self.selected(survivors@),
            (Phase::Evolve, Event::Evolved(population)) => CoordinatorState {
                population: population@,
                ..self
            }.dispatch(),
            _ => (self.stopped(), Decision::Fail(ExploreError::ProtocolFailure)),
        }
    }
}

/// Every step keeps the root well-formed.
pub proof fn lemma_next_wf(s: CoordinatorState, event: Event)
    requires
        s.wf(),
    ensures
        s.next(event).0.wf(),
{
    match (s.phase, event) {
        (Phase::Evaluate, Event::Gathered(records)) => {
            if well_shaped(records@, s.sizes()) {
                lemma_best_of_concat(None, s.history, corrected(records@, s.sizes()));
                lemma_shards_cover(s.population.len() as usize, s.num_procs);
            }
        },
        (Phase::Init, Event::Population(population)) => {
            assert(population@.len() == population.len());
        },
        (Phase::Evolve, Event::Evolved(population)) => {
            assert(population@.len() == population.len());
        },
        (Phase::Select, Event::Selected(survivors)) => {
            assert(survivors@.len() == survivors.len());
        },
        _ => {},
    }
}

/// The root of a search.
pub struct Coordinator {
    config: Config,
    num_procs: usize,
    phase: Phase,
    generation: u32,
    population: Vec<String>,
    scores: Vec<Real32>,
    history: Vec<GenerationRecord>,
    best: BestTracker,
    generation_best: BestTracker,
    flag: bool,
}

impl View for Coordinator {
    type V = CoordinatorState;

    closed spec fn view(&self) -> CoordinatorState {
        CoordinatorState {
            config: self.config,
            num_procs: self.num_procs,
            phase: self.phase,
            generation: self.generation,
            population: self.population@,
            scores: self.scores@,
            history: self.history@,
            best: self.best.best,
            generation_best: self.generation_best.best,
            flag: self.flag,
        }
    }
}

impl Coordinator {
    /// Whether the root is in a state that a step can start from. `new`
    /// gives such a state and every step keeps it.
    pub open spec fn wf(&self) -> bool {
        self@.wf()
    }

    /// The root of a search over `num_procs` processes, before the search.
    pub fn new(config: Config, num_procs: usize) -> (root: Coordinator)
        requires
            num_procs >= 1,
        ensures
            root@ == CoordinatorState::initial(config, num_procs),
            root.wf(),
    {
        Coordinator {
            config,
            num_procs,
            phase: Phase::Init,
            generation: 0,
            population: Vec::new(),
            scores: Vec::new(),
            history: Vec::new(),
            best: BestTracker::new(),
            generation_best: BestTracker::new(),
            flag: false,
        }
    }

    /// What the root waits for.
    pub fn phase(&self) -> (phase: Phase)
        ensures
            phase == self@.phase,
    {
        self.phase
    }

    /// The number of the generation that runs, or ran last.
    pub fn generation(&self) -> (generation: u32)
        ensures
            generation == self@.generation,
    {
        self.generation
    }

    /// All records gathered so far, in the order of the generations and,
    /// within a generation, of the population.
    pub fn history(&self) -> (history: &Vec<GenerationRecord>)
        ensures
            history@ == self@.history,
    {
        &self.history
    }

    /// The best record gathered so far.
    pub fn best(&self) -> (best: Option<GenerationRecord>)
        ensures
            best == self@.best,
    {
        match &self.best.best {
            Some(record) => Some(record.clone()),
            None => None,
        }
    }

    /// The best record of the generation gathered last.
    pub fn generation_best(&self) -> (best: Option<GenerationRecord>)
        ensures
            best == self@.generation_best,
    {
        match &self.generation_best.best {
            Some(record) => Some(record.clone()),
            None => None,
        }
    }

    /// Starts a generation, or ends the search.
    fn dispatch(&mut self) -> (action: Action)
        requires
            old(self).num_procs >= 1,
        ensures
            (final(self)@, action@) == old(self)@.dispatch(),
    {
        if self.config.generation_num != 0 && self.generation == self.config.generation_num {
            self.phase = Phase::Terminate;
            return Action::Terminate(Termination::GenerationCap);
        }
        if self.population.len() == 0 {
            self.phase = Phase::Terminate;
            return Action::Terminate(Termination::EmptyPopulation);
        }
        if self.generation == u32::MAX {
            self.phase = Phase::Terminate;
            return Action::Terminate(Termination::GenerationCap);
        }
        if self.population.len() > i32::MAX as usize {
            self.phase = Phase::Terminate;
            return Action::Fail(ExploreError::ProtocolFailure);
        }
        self.generation = self.generation + 1;
        self.phase = Phase::Evaluate;
        Action::Dispatch(partition(&self.population, self.num_procs))
    }

    /// Takes the gathered results in.
    fn gathered(&mut self, records: Vec<GenerationRecord>) -> (action: Action)
        requires
            old(self).num_procs >= 1,
        ensures
            (final(self)@, action@) == old(self)@.gathered(records@),
    {
        let sizes = shard_sizes(self.population.len(), self.num_procs);
        let placed = match correct_indices(records, &sizes) {
            Ok(placed) => placed,
            Err(error) => {
                self.phase = Phase::Terminate;
                return Action::Fail(error);
            },
        };
        self.best.observe_all(&placed);
        let mut generation_best = BestTracker::new();
        generation_best.observe_all(&placed);
        self.generation_best = generation_best;
        let flag = reached(&placed, &self.config.desired_fitness);
        let mut scores: Vec<Real32> = Vec::with_capacity(placed.len());
        let mut i: usize = 0;
        while i < placed.len()
            invariant
                i <= placed.len(),
                scores@ == scores_of(placed@).take(i as int),
            decreases placed.len() - i,
        {
            scores.push(placed[i].fitness);
            assert(scores@ =~= scores_of(placed@).take(i + 1));
            i += 1;
        }
        assert(scores_of(placed@).take(placed@.len() as int) =~= scores_of(placed@));
        self.scores = scores;
        let mut placed = placed;
        self.history.append(&mut placed);
        self.flag = flag;
        self.phase = Phase::Gather;
        Action::Broadcast(flag)
    }

    /// Goes on after the broadcast of the flag.
    fn broadcast(&mut self) -> (action: Action)
        requires
            old(self).scores@.len() == old(self).population@.len(),
        ensures
            (final(self)@, action@) == old(self)@.broadcast(),
    {
        if self.flag {
            self.phase = Phase::Terminate;
            return Action::Terminate(Termination::DesiredFitness);
        }
        let mut pairs: Vec<(String, Real32)> = Vec::with_capacity(self.population.len());
        let mut i: usize = 0;
        while i < self.population.len()
            invariant
                i <= self.population.len(),
                self.scores@.len() == self.population@.len(),
                *self == *old(self),
                pairs@ == pairs_of(self.population@, self.scores@).take(i as int),
            decreases self.population.len() - i,
        {
            pairs.push((self.population[i].clone(), self.scores[i]));
            assert(pairs@ =~= pairs_of(self.population@, self.scores@).take(i + 1));
            i += 1;
        }
        assert(pairs_of(self.population@, self.scores@).take(self.population@.len() as int)
            =~= pairs_of(self.population@, self.scores@));
        self.phase = Phase::Select;
        Action::Select(pairs)
    }

    /// Takes the outcome of selection in.
    fn selected(&mut self, survivors: Vec<(String, Real32)>) -> (action: Action)
        ensures
            (final(self)@, action@) == old(self)@.selected(survivors@),
    {
        if survivors.len() <= 1 {
            self.phase = Phase::Terminate;
            return Action::Terminate(Termination::PopulationCollapse);
        }
        let mut population: Vec<String> = Vec::with_capacity(survivors.len());
        let mut i: usize = 0;
        while i < survivors.len()
            invariant
                i <= survivors.len(),
                population@ == individuals_of(survivors@).take(i as int),
            decreases survivors.len() - i,
        {
            population.push(survivors[i].0.clone());
            assert(population@ =~= individuals_of(survivors@).take(i + 1));
            i += 1;
        }
        assert(individuals_of(survivors@).take(survivors@.len() as int) =~= individuals_of(
            survivors@,
        ));
        let individuals = population.clone();
        assert(individuals@ =~= population@);
        self.population = population;
        self.phase = Phase::Evolve;
        Action::Evolve(individuals)
    }

    /// Tells the root of an event and returns what it asks for next.
    pub fn step(&mut self, event: Event) -> (action: Action)
        requires
            old(self).wf(),
        ensures
            (final(self)@, action@) == old(self)@.next(event),
            final(self).wf(),
    {
        proof {
            lemma_next_wf(old(self)@, event);
        }
        match (self.phase, event) {
            (Phase::Init, Event::Population(population)) => {
                self.population = population;
                self.dispatch()
            },
            (Phase::Evaluate, Event::Gathered(records)) => self.gathered(records),
            (Phase::Gather, Event::Broadcast) => self.broadcast(),
            (Phase::Select, Event::Selected(survivors)) => self.selected(survivors),
            (Phase::Evolve, Event::Evolved(population)) => {
                self.population = population;
                self.dispatch()
            },
            _ => {
                self.phase = Phase::Terminate;
                Action::Fail(ExploreError::ProtocolFailure)
            },
        }
    }
}

} // verus!
