//! A worker of a search as a state machine.
//!
//! Generation after generation a worker receives its shard, runs each
//! individual of it, sends the results to the root, and learns from the
//! broadcast flag whether the search goes on. The root is a worker too: it
//! evaluates the first shard.
use crate::explore::coordinator::Config;
use crate::explore::coordinator::Termination;
use crate::explore::error::ExploreError;
use crate::explore::evaluate::local_records;
use crate::explore::evaluate::local_records_of;
use crate::explore::evaluate::scores_fit;
use crate::explore::record::GenerationRecord;
use crate::scalar::Real32;
use vstd::prelude::*;

verus! {

/// Where a worker stands: what it waits for.
#[derive(Clone, Copy, Debug, PartialEq, Eq, Structural)]
pub enum WorkerPhase {
    /// The search has not begun.
    Init,
    /// The worker waits for its shard.
    Receive,
    /// The worker waits for the fitness of the individuals of its shard.
    Evaluate,
    /// The results are sent; the worker waits for the broadcast flag.
    Flag,
    /// The search is over.
    Terminate,
}

/// What a worker is told.
pub enum WorkerEvent {
    /// The search begins.
    Start,
    /// The shard of the generation has arrived.
    Shard(Vec<String>),
    /// Each individual of the shard has run; these are their fitness values,
    /// in the order of the shard.
    Scores(Vec<Real32>),
    /// The flag of the generation has arrived.
    Flag(bool),
}

/// What a worker asks for.
pub enum WorkerAction {
    /// Receive the shard of the generation.
    Receive,
    /// Run each of these individuals and find its fitness.
    Evaluate(Vec<String>),
    /// Hand these results to the gather, then receive the broadcast flag.
    Send(Vec<GenerationRecord>),
    /// Stop: the search has ended.
    Terminate(Termination),
    /// Stop: the search has failed.
    Fail(ExploreError),
}

/// An action of a worker as a mathematical value.
pub enum WorkerDecision {
    Receive,
    Evaluate(Seq<String>),
    Send(Seq<GenerationRecord>),
    Terminate(Termination),
    Fail(ExploreError),
}

impl View for WorkerAction {
    type V = WorkerDecision;

    open spec fn view(&self) -> WorkerDecision {
        match self {
            WorkerAction::Receive => WorkerDecision::Receive,
            WorkerAction::Evaluate(shard) => WorkerDecision::Evaluate(shard@),
            WorkerAction::Send(records) => WorkerDecision::Send(records@),
            WorkerAction::Terminate(cause) => WorkerDecision::Terminate(*cause),
            WorkerAction::Fail(error) => WorkerDecision::Fail(*error),
        }
    }
}

/// A worker as a mathematical value.
pub struct WorkerState {
    pub config: Config,
    pub phase: WorkerPhase,
    /// The number of the generation that runs, or ran last; 0 before the
    /// first.
    pub generation: u32,
    /// The shard of the generation.
    pub shard: Seq<String>,
}

impl WorkerState {
    /// A worker before the search.
    pub open spec fn initial(config: Config) -> WorkerState {
        WorkerState { config, phase: WorkerPhase::Init, generation: 0, shard: Seq::empty() }
    }

    /// The worker stopped where it stands.
    pub open spec fn stopped(self) -> WorkerState {
        WorkerState { phase: WorkerPhase::Terminate, ..self }
    }

    /// The start of a generation: the search ends here if the configured
    /// number of generations has run, or if the generation counter is used
    /// up; otherwise the generation is counted and the worker waits for its
    /// shard.
    pub open spec fn begin(self) -> (WorkerState, WorkerDecision) {
        if self.config.generation_num != 0 && self.generation == self.config.generation_num {
            (self.stopped(), WorkerDecision::Terminate(Termination::GenerationCap))
        } else if self.generation == u32::MAX {
            (self.stopped(), WorkerDecision::Terminate(Termination::GenerationCap))
        } else {
            (
                WorkerState {
                    phase: WorkerPhase::Receive,
                    generation: (self.generation + 1) as u32,
                    ..self
                },
                WorkerDecision::Receive,
            )
        }
    }

    /// What the worker does when it is told of an event: the next state and
    /// the action it asks for. An event that the worker does not wait for,
    /// or fitness values that do not go with the shard, are a failure.
    pub open spec fn next(self, event: WorkerEvent) -> (WorkerState, WorkerDecision) {
        match (self.phase, event) {
            (WorkerPhase::Init, WorkerEvent::Start) => self.begin(),
            (WorkerPhase::Receive, WorkerEvent::Shard(shard)) => (
                WorkerState { phase: WorkerPhase::Evaluate, shard: shard@, ..self },
                WorkerDecision::Evaluate(shard@),
            ),
            (WorkerPhase::Evaluate, WorkerEvent::Scores(scores)) => if scores_fit(
                self.shard,
                scores@,
            ) {
                (
                    WorkerState { phase: WorkerPhase::Flag, ..self },
                    WorkerDecision::Send(local_records_of(self.generation, self.shard, scores@)),
                )
            } else {
                (self.stopped(), WorkerDecision::Fail(ExploreError::ProtocolFailure))
            },
            (WorkerPhase::Flag, WorkerEvent::Flag(flag)) => if flag {
                (self.stopped(), WorkerDecision::Terminate(Termination::DesiredFitness))
            } else {
                self.begin()
            },
            _ => (self.stopped(), WorkerDecision::Fail(ExploreError::ProtocolFailure)),
        }
    }
}

/// A worker of a search.
pub struct Worker {
    config: Config,
    phase: WorkerPhase,
    generation: u32,
    shard: Vec<String>,
}

impl View for Worker {
    type V = WorkerState;

    closed spec fn view(&self) -> WorkerState {
        WorkerState {
            config: self.config,
            phase: self.phase,
            generation: self.generation,
            shard: self.shard@,
        }
    }
}

impl Worker {
    /// A worker before the search.
    pub fn new(config: Config) -> (worker: Worker)
        ensures
            worker@ == WorkerState::initial(config),
    {
        Worker { config, phase: WorkerPhase::Init, generation: 0, shard: Vec::new() }
    }

    /// What the worker waits for.
    pub fn phase(&self) -> (phase: WorkerPhase)
        ensures
            phase == self@.phase,
    {
        self.phase
    }

    /// The number of the generation that runs, or ran last.
    pub fn generation(&self) -> (generation: u32)
        ensures
            generation == self@.generation,
    {
        self.generation
    }

    /// Starts a generation, or ends the search.
    fn begin(&mut self) -> (action: WorkerAction)
        ensures
            (final(self)@, action@) == old(self)@.begin(),
    {
        if self.config.generation_num != 0 && self.generation == self.config.generation_num {
            self.phase = WorkerPhase::Terminate;
            return WorkerAction::Terminate(Termination::GenerationCap);
        }
        if self.generation == u32::MAX {
            self.phase = WorkerPhase::Terminate;
            return WorkerAction::Terminate(Termination::GenerationCap);
        }
        self.generation = self.generation + 1;
        self.phase = WorkerPhase::Receive;
        WorkerAction::Receive
    }

    /// Tells the worker of an event and returns what it asks for next.
    pub fn step(&mut self, event: WorkerEvent) -> (action: WorkerAction)
        ensures
            (final(self)@, action@) == old(self)@.next(event),
    {
        match (self.phase, event) {
            (WorkerPhase::Init, WorkerEvent::Start) => self.begin(),
            (WorkerPhase::Receive, WorkerEvent::Shard(shard)) => {
                let individuals = shard.clone();
                assert(individuals@ =~= shard@);
                self.shard = shard;
                self.phase = WorkerPhase::Evaluate;
                WorkerAction::Evaluate(individuals)
            },
            (WorkerPhase::Evaluate, WorkerEvent::Scores(scores)) => {
                match local_records(self.generation, &self.shard, &scores) {
                    Ok(records) => {
                        self.phase = WorkerPhase::Flag;
                        WorkerAction::Send(records)
                    },
                    Err(error) => {
                        self.phase = WorkerPhase::Terminate;
                        WorkerAction::Fail(error)
                    },
                }
            },
            (WorkerPhase::Flag, WorkerEvent::Flag(flag)) => {
                if flag {
                    self.phase = WorkerPhase::Terminate;
                    WorkerAction::Terminate(Termination::DesiredFitness)
                } else {
                    self.begin()
                }
            },
            _ => {
                self.phase = WorkerPhase::Terminate;
                WorkerAction::Fail(ExploreError::ProtocolFailure)
            },
        }
    }
}

} // verus!
