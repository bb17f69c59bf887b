use abm::explore::best::reached;
use abm::explore::best::BestTracker;
use abm::explore::coordinator::Action;
use abm::explore::coordinator::Config;
use abm::explore::coordinator::Coordinator;
use abm::explore::coordinator::Event;
use abm::explore::coordinator::Phase;
use abm::explore::coordinator::Termination;
use abm::explore::error::ExploreError;
use abm::explore::evaluate::local_records;
use abm::explore::evaluate::should_step;
use abm::explore::gather::correct_indices;
use abm::explore::record::GenerationRecord;
use abm::explore::shard::partition;
use abm::explore::shard::shard_offsets;
use abm::explore::shard::shard_sizes;
use abm::explore::wire::payload;
use abm::explore::wire::record_layout;
use abm::explore::wire::ElementType;
use abm::explore::wire::FieldLayout;
use abm::explore::wire::RecordField;
use abm::explore::wire::RECORD_BYTES;
use abm::explore::worker::Worker;
use abm::explore::worker::WorkerAction;
use abm::explore::worker::WorkerEvent;
use abm::explore::worker::WorkerPhase;
use abm::scalar::Real32;

fn fit(x: f32) -> Real32 {
    Real32::from_bits(x.to_bits())
}

fn unfit(x: Real32) -> f32 {
    f32::from_bits(x.to_bits())
}

fn names(n: usize) -> Vec<String> {
    (0..n).map(|i| format!("i{}", i)).collect()
}

fn record(generation: u32, index: i32, fitness: f32) -> GenerationRecord {
    GenerationRecord::new(generation, index, fit(fitness), None)
}

fn config(desired: f32, generation_num: u32) -> Config {
    Config { desired_fitness: fit(desired), generation_num, step: 10 }
}

/// What each worker would send for shards of the given sizes: records
/// numbered from 0 within each shard, all put together in the order of the
/// workers.
fn gathered(generation: u32, sizes: &[usize]) -> Vec<GenerationRecord> {
    let mut all = Vec::new();
    for size in sizes {
        for j in 0..*size {
            all.push(record(generation, j as i32, 0.0));
        }
    }
    all
}

/// How a search ended, and what it left.
struct Outcome {
    cause: Result<Termination, ExploreError>,
    root_generation: u32,
    worker_generations: Vec<u32>,
    worker_phases: Vec<WorkerPhase>,
    history: Vec<GenerationRecord>,
    best: Option<GenerationRecord>,
}

/// Runs a search over `num_procs` processes in one process: the messages
/// are handed over by hand. `fitness` gives the fitness of an individual in
/// a generation; `keep` is the number of individuals that selection leaves.
fn run_search(
    settings: Config,
    num_procs: usize,
    population: Vec<String>,
    fitness: fn(u32, &str) -> f32,
    keep: usize,
) -> Outcome {
    let mut root = Coordinator::new(settings, num_procs);
    let mut workers: Vec<Worker> = (0..num_procs).map(|_| Worker::new(settings)).collect();
    let mut waiting: Vec<bool> = Vec::new();
    for worker in workers.iter_mut() {
        waiting.push(matches!(worker.step(WorkerEvent::Start), WorkerAction::Receive));
    }
    let mut action = root.step(Event::Population(population));
    let cause = loop {
        match action {
            Action::Dispatch(shards) => {
                assert_eq!(shards.len(), num_procs);
                let mut flat = Vec::new();
                for (w, shard) in shards.into_iter().enumerate() {
                    assert!(waiting[w]);
                    let individuals = match workers[w].step(WorkerEvent::Shard(shard)) {
                        WorkerAction::Evaluate(individuals) => individuals,
                        _ => panic!("the worker does not evaluate"),
                    };
                    let generation = workers[w].generation();
                    let scores: Vec<Real32> =
                        individuals.iter().map(|i| fit(fitness(generation, i))).collect();
                    match workers[w].step(WorkerEvent::Scores(scores)) {
                        WorkerAction::Send(mut records) => flat.append(&mut records),
                        _ => panic!("the worker does not send"),
                    }
                }
                action = root.step(Event::Gathered(flat));
            }
            Action::Broadcast(flag) => {
                for (w, worker) in workers.iter_mut().enumerate() {
                    waiting[w] = matches!(worker.step(WorkerEvent::Flag(flag)), WorkerAction::Receive);
                }
                action = root.step(Event::Broadcast);
            }
            Action::Select(mut pairs) => {
                pairs.truncate(keep);
                action = root.step(Event::Selected(pairs));
            }
            Action::Evolve(mut individuals) => {
                for individual in individuals.iter_mut() {
                    individual.push('+');
                }
                individuals.reverse();
                action = root.step(Event::Evolved(individuals));
            }
            Action::Terminate(cause) => break Ok(cause),
            Action::Fail(error) => break Err(error),
        }
    };
    assert_eq!(root.phase(), Phase::Terminate);
    Outcome {
        cause,
        root_generation: root.generation(),
        worker_generations: workers.iter().map(|w| w.generation()).collect(),
        worker_phases: workers.iter().map(|w| w.phase()).collect(),
        history: root.history().clone(),
        best: root.best(),
    }
}

fn rising(generation: u32, individual: &str) -> f32 {
    if generation == 3 && individual.starts_with("i4") {
        1.0
    } else {
        0.125 * generation as f32
    }
}

fn flat(_generation: u32, _individual: &str) -> f32 {
    0.5
}

#[test]
fn seven_individuals_on_three_processes() {
    assert_eq!(shard_sizes(7, 3), vec![3, 2, 2]);
}

#[test]
fn shard_sizes_sum_to_the_population_and_differ_by_one_at_most() {
    for n in 0..40usize {
        for p in 1..12usize {
            let sizes = shard_sizes(n, p);
            assert_eq!(sizes.len(), p);
            assert_eq!(sizes.iter().sum::<usize>(), n);
            for (i, size) in sizes.iter().enumerate() {
                if i < n % p {
                    assert_eq!(*size, n / p + 1);
                } else {
                    assert_eq!(*size, n / p);
                }
            }
            let largest = sizes.iter().max().unwrap();
            let smallest = sizes.iter().min().unwrap();
            assert!(largest - smallest <= 1);
        }
    }
}

#[test]
fn more_processes_than_individuals_leaves_shards_empty() {
    assert_eq!(shard_sizes(2, 5), vec![1, 1, 0, 0, 0]);
    assert_eq!(shard_sizes(0, 3), vec![0, 0, 0]);
    assert_eq!(shard_sizes(5, 1), vec![5]);
    assert_eq!(shard_sizes(usize::MAX, 2), vec![usize::MAX / 2 + 1, usize::MAX / 2]);
}

#[test]
fn offsets_are_the_running_sums() {
    assert_eq!(shard_offsets(&vec![3, 2, 2]), vec![0, 3, 5]);
    assert_eq!(shard_offsets(&vec![1, 1, 0, 0, 0]), vec![0, 1, 2, 2, 2]);
    assert_eq!(shard_offsets(&vec![]), Vec::<usize>::new());
    assert_eq!(shard_offsets(&vec![4]), vec![0]);
}

#[test]
fn partition_keeps_the_order_of_the_population() {
    let population = names(7);
    let shards = partition(&population, 3);
    assert_eq!(shards.len(), 3);
    assert_eq!(shards[0], vec!["i0", "i1", "i2"]);
    assert_eq!(shards[1], vec!["i3", "i4"]);
    assert_eq!(shards[2], vec!["i5", "i6"]);
    for p in 1..10 {
        let shards = partition(&population, p);
        assert_eq!(shards.len(), p);
        assert_eq!(shards.concat(), population);
    }
    assert_eq!(partition(&Vec::new(), 2), vec![Vec::<String>::new(), Vec::new()]);
}

#[test]
fn corrected_indices_count_through_the_population() {
    let out = correct_indices(gathered(1, &[3, 2, 2]), &vec![3, 2, 2]).unwrap();
    let indices: Vec<i32> = out.iter().map(|r| r.index).collect();
    assert_eq!(indices, vec![0, 1, 2, 3, 4, 5, 6]);
}

#[test]
fn corrected_indices_do_not_depend_on_the_number_of_processes() {
    for n in 0..30usize {
        for p in 1..9usize {
            let sizes = shard_sizes(n, p);
            let out = correct_indices(gathered(4, &sizes), &sizes).unwrap();
            let indices: Vec<i32> = out.iter().map(|r| r.index).collect();
            let expected: Vec<i32> = (0..n as i32).collect();
            assert_eq!(indices, expected);
            assert!(out.iter().all(|r| r.generation == 4));
        }
    }
}

#[test]
fn correction_moves_the_index_and_nothing_else() {
    let records = vec![
        GenerationRecord::new(2, 0, fit(0.5), Some("a".to_string())),
        GenerationRecord::new(2, 7, fit(1.5), None),
        GenerationRecord::new(9, -3, fit(-2.0), Some("c".to_string())),
    ];
    let out = correct_indices(records, &vec![1, 0, 2]).unwrap();
    assert_eq!(out[0], GenerationRecord::new(2, 0, fit(0.5), Some("a".to_string())));
    assert_eq!(out[1], GenerationRecord::new(2, 8, fit(1.5), None));
    assert_eq!(out[2], GenerationRecord::new(9, -2, fit(-2.0), Some("c".to_string())));
}

#[test]
fn missized_results_are_a_protocol_failure() {
    assert_eq!(
        correct_indices(gathered(1, &[3, 2]), &vec![3, 2, 2]),
        Err(ExploreError::ProtocolFailure)
    );
    assert_eq!(
        correct_indices(gathered(1, &[3, 2, 3]), &vec![3, 2, 2]),
        Err(ExploreError::ProtocolFailure)
    );
    assert_eq!(correct_indices(gathered(1, &[1]), &vec![]), Err(ExploreError::ProtocolFailure));
    assert_eq!(
        correct_indices(Vec::new(), &vec![usize::MAX, usize::MAX]),
        Err(ExploreError::ProtocolFailure)
    );
    assert_eq!(correct_indices(Vec::new(), &vec![0, 0]), Ok(Vec::new()));
}

#[test]
fn index_out_of_range_is_a_protocol_failure() {
    let records = vec![record(1, 0, 0.0), record(1, i32::MAX, 0.0)];
    assert_eq!(correct_indices(records, &vec![1, 1]), Err(ExploreError::ProtocolFailure));
    let records = vec![record(1, 0, 0.0), record(1, i32::MAX - 1, 0.0)];
    let out = correct_indices(records, &vec![1, 1]).unwrap();
    assert_eq!(out[1].index, i32::MAX);
}

#[test]
fn tracker_keeps_the_first_of_equal_records() {
    let mut tracker = BestTracker::new();
    assert!(tracker.best.is_none());
    tracker.observe(&record(1, 0, 0.5));
    tracker.observe(&record(1, 1, 0.5));
    assert_eq!(tracker.best, Some(record(1, 0, 0.5)));
    tracker.observe(&record(2, 0, 0.75));
    assert_eq!(tracker.best, Some(record(2, 0, 0.75)));
    tracker.observe(&record(3, 0, 0.25));
    tracker.observe(&record(3, 1, f32::NAN));
    tracker.observe(&record(3, 2, 0.75));
    assert_eq!(tracker.best, Some(record(2, 0, 0.75)));
}

#[test]
fn tracker_takes_the_first_record_whatever_its_fitness() {
    let mut tracker = BestTracker::new();
    tracker.observe(&record(1, 0, -4.0));
    assert_eq!(tracker.best, Some(record(1, 0, -4.0)));
    tracker.observe(&record(1, 1, -3.0));
    assert_eq!(tracker.best, Some(record(1, 1, -3.0)));
}

#[test]
fn tracker_holds_the_maximum_of_a_list() {
    let records = vec![
        record(1, 0, 0.25),
        record(1, 1, 2.0),
        record(1, 2, -1.0),
        record(2, 0, 2.0),
        record(2, 1, 1.5),
    ];
    let mut tracker = BestTracker::new();
    tracker.observe_all(&records);
    assert_eq!(tracker.best, Some(record(1, 1, 2.0)));
    tracker.observe_all(&Vec::new());
    assert_eq!(tracker.best, Some(record(1, 1, 2.0)));
}

#[test]
fn desired_fitness_is_reached_at_equality() {
    let records = vec![record(1, 0, 0.25), record(1, 1, 1.0)];
    assert!(reached(&records, &fit(1.0)));
    assert!(reached(&records, &fit(0.5)));
    assert!(!reached(&records, &fit(1.5)));
    assert!(!reached(&records, &fit(f32::NAN)));
    assert!(!reached(&Vec::new(), &fit(0.0)));
    assert!(!reached(&vec![record(1, 0, f32::NAN)], &fit(0.0)));
}

#[test]
fn local_records_number_the_shard_from_zero() {
    let shard = vec!["x".to_string(), "y".to_string()];
    let scores = vec![fit(0.5), fit(2.0)];
    let records = local_records(6, &shard, &scores).unwrap();
    assert_eq!(
        records,
        vec![
            GenerationRecord::new(6, 0, fit(0.5), Some("x".to_string())),
            GenerationRecord::new(6, 1, fit(2.0), Some("y".to_string())),
        ]
    );
    assert_eq!(local_records(1, &Vec::new(), &Vec::new()), Ok(Vec::new()));
}

#[test]
fn scores_that_do_not_match_the_shard_are_a_protocol_failure() {
    let shard = vec!["x".to_string(), "y".to_string()];
    assert_eq!(local_records(1, &shard, &vec![fit(0.5)]), Err(ExploreError::ProtocolFailure));
    assert_eq!(
        local_records(1, &shard, &vec![fit(0.5), fit(0.5), fit(0.5)]),
        Err(ExploreError::ProtocolFailure)
    );
}

#[test]
fn run_stops_at_the_budget_or_the_end_condition() {
    assert!(should_step(0, 3, false));
    assert!(should_step(0, 3, true));
    assert!(should_step(2, 3, false));
    assert!(!should_step(2, 3, true));
    assert!(!should_step(3, 3, false));
    assert!(!should_step(0, 0, false));
}

#[test]
fn record_block_has_three_fields_of_four_bytes() {
    let layout = record_layout();
    assert_eq!(
        layout,
        vec![
            FieldLayout {
                field: RecordField::Generation,
                offset: 0,
                count: 1,
                datatype: ElementType::Unsigned32
            },
            FieldLayout {
                field: RecordField::Index,
                offset: 4,
                count: 1,
                datatype: ElementType::Signed32
            },
            FieldLayout {
                field: RecordField::Fitness,
                offset: 8,
                count: 1,
                datatype: ElementType::Float32
            },
        ]
    );
    assert_eq!(RECORD_BYTES, 12);
    let mut end = 0;
    for field in layout {
        assert_eq!(field.offset, end);
        end += field.count * field.datatype.size();
    }
    assert_eq!(end, RECORD_BYTES);
    assert_eq!(ElementType::Byte.size(), 1);
}

#[test]
fn payload_is_the_bytes_with_their_count() {
    let (bytes, count) = payload("a=1;b=2").unwrap();
    assert_eq!(bytes, b"a=1;b=2");
    assert_eq!(count, 7);
    let (bytes, count) = payload("").unwrap();
    assert!(bytes.is_empty());
    assert_eq!(count, 0);
    let (bytes, count) = payload("é").unwrap();
    assert_eq!(bytes, [0xc3, 0xa9]);
    assert_eq!(count, 2);
}

#[test]
fn search_ends_in_the_generation_that_reaches_the_desired_fitness() {
    let outcome = run_search(config(1.0, 0), 3, names(7), rising, 7);
    assert_eq!(outcome.cause, Ok(Termination::DesiredFitness));
    assert_eq!(outcome.root_generation, 3);
    assert_eq!(outcome.worker_generations, vec![3, 3, 3]);
    assert_eq!(outcome.worker_phases, vec![WorkerPhase::Terminate; 3]);
    let best = outcome.best.unwrap();
    assert_eq!(best.generation, 3);
    assert_eq!(unfit(best.fitness), 1.0);
    assert_eq!(outcome.history.len(), 21);
}

#[test]
fn history_is_in_the_order_of_generations_and_population() {
    let outcome = run_search(config(1.0, 0), 3, names(7), rising, 7);
    for (place, record) in outcome.history.iter().enumerate() {
        assert_eq!(record.generation as usize, place / 7 + 1);
        assert_eq!(record.index as usize, place % 7);
    }
    let first: Vec<String> =
        outcome.history[..7].iter().map(|r| r.individual.clone().unwrap()).collect();
    assert_eq!(first, names(7));
    let best = outcome.best.unwrap();
    assert_eq!(outcome.history[14 + best.index as usize], best);
    assert!(best.individual.unwrap().starts_with("i4"));
}

#[test]
fn search_ends_at_the_generation_cap() {
    let outcome = run_search(config(9.0, 4), 2, names(5), flat, 5);
    assert_eq!(outcome.cause, Ok(Termination::GenerationCap));
    assert_eq!(outcome.root_generation, 4);
    assert_eq!(outcome.worker_generations, vec![4, 4]);
    assert_eq!(outcome.worker_phases, vec![WorkerPhase::Terminate; 2]);
    assert_eq!(outcome.history.len(), 20);
    assert_eq!(outcome.best, Some(GenerationRecord::new(1, 0, fit(0.5), Some("i0".to_string()))));
}

#[test]
fn search_ends_when_selection_leaves_one_individual() {
    let outcome = run_search(config(9.0, 0), 2, names(5), flat, 1);
    assert_eq!(outcome.cause, Ok(Termination::PopulationCollapse));
    assert_eq!(outcome.root_generation, 1);
    assert_eq!(outcome.history.len(), 5);
}

#[test]
fn search_shrinks_with_selection() {
    let outcome = run_search(config(9.0, 3), 4, names(6), flat, 3);
    assert_eq!(outcome.cause, Ok(Termination::GenerationCap));
    assert_eq!(outcome.history.len(), 6 + 3 + 3);
    let second: Vec<String> =
        outcome.history[6..9].iter().map(|r| r.individual.clone().unwrap()).collect();
    assert_eq!(second, vec!["i2+", "i1+", "i0+"]);
    let indices: Vec<i32> = outcome.history[6..9].iter().map(|r| r.index).collect();
    assert_eq!(indices, vec![0, 1, 2]);
}

#[test]
fn empty_population_runs_no_generation() {
    let mut root = Coordinator::new(config(1.0, 5), 3);
    let action = root.step(Event::Population(Vec::new()));
    assert!(matches!(action, Action::Terminate(Termination::EmptyPopulation)));
    assert_eq!(root.generation(), 0);
    assert_eq!(root.phase(), Phase::Terminate);
    assert!(root.history().is_empty());
    assert!(root.best().is_none());
}

#[test]
fn unexpected_event_is_a_protocol_failure() {
    let mut root = Coordinator::new(config(1.0, 5), 3);
    assert_eq!(root.phase(), Phase::Init);
    assert!(matches!(root.step(Event::Broadcast), Action::Fail(ExploreError::ProtocolFailure)));
    assert_eq!(root.phase(), Phase::Terminate);
    assert!(matches!(
        root.step(Event::Population(names(3))),
        Action::Fail(ExploreError::ProtocolFailure)
    ));
    let mut worker = Worker::new(config(1.0, 5));
    assert_eq!(worker.phase(), WorkerPhase::Init);
    assert!(matches!(
        worker.step(WorkerEvent::Flag(false)),
        WorkerAction::Fail(ExploreError::ProtocolFailure)
    ));
    assert_eq!(worker.phase(), WorkerPhase::Terminate);
}

#[test]
fn missized_gather_ends_the_search() {
    let mut root = Coordinator::new(config(1.0, 5), 2);
    assert!(matches!(root.step(Event::Population(names(4))), Action::Dispatch(_)));
    assert_eq!(root.phase(), Phase::Evaluate);
    let action = root.step(Event::Gathered(gathered(1, &[2, 1])));
    assert!(matches!(action, Action::Fail(ExploreError::ProtocolFailure)));
    assert_eq!(root.phase(), Phase::Terminate);
    assert!(root.history().is_empty());
}

#[test]
fn root_hands_selection_the_population_with_its_fitness() {
    let mut root = Coordinator::new(config(5.0, 0), 2);
    let shards = match root.step(Event::Population(names(3))) {
        Action::Dispatch(shards) => shards,
        _ => panic!("no dispatch"),
    };
    assert_eq!(shards, vec![vec!["i0".to_string(), "i1".to_string()], vec!["i2".to_string()]]);
    let results = vec![record(1, 0, 0.5), record(1, 1, 1.5), record(1, 0, 2.5)];
    assert!(matches!(root.step(Event::Gathered(results)), Action::Broadcast(false)));
    assert_eq!(root.phase(), Phase::Gather);
    let pairs = match root.step(Event::Broadcast) {
        Action::Select(pairs) => pairs,
        _ => panic!("no selection"),
    };
    assert_eq!(
        pairs,
        vec![
            ("i0".to_string(), fit(0.5)),
            ("i1".to_string(), fit(1.5)),
            ("i2".to_string(), fit(2.5))
        ]
    );
    assert_eq!(root.phase(), Phase::Select);
    let survivors = vec![("i2".to_string(), fit(2.5)), ("i1".to_string(), fit(1.5))];
    let individuals = match root.step(Event::Selected(survivors)) {
        Action::Evolve(individuals) => individuals,
        _ => panic!("no evolution"),
    };
    assert_eq!(individuals, vec!["i2", "i1"]);
    assert_eq!(root.phase(), Phase::Evolve);
    let next = match root.step(Event::Evolved(vec!["m".to_string(), "n".to_string()])) {
        Action::Dispatch(shards) => shards,
        _ => panic!("no dispatch"),
    };
    assert_eq!(next, vec![vec!["m".to_string()], vec!["n".to_string()]]);
    assert_eq!(root.generation(), 2);
    assert_eq!(root.best(), Some(record(1, 2, 2.5)));
    assert_eq!(root.generation_best(), Some(record(1, 2, 2.5)));
    let results = vec![record(2, 0, 0.25), record(2, 0, 0.75)];
    assert!(matches!(root.step(Event::Gathered(results)), Action::Broadcast(false)));
    assert_eq!(root.best(), Some(record(1, 2, 2.5)));
    assert_eq!(root.generation_best(), Some(record(2, 1, 0.75)));
    assert_eq!(root.history().len(), 5);
}

#[test]
fn worker_follows_the_flag() {
    let mut worker = Worker::new(config(1.0, 2));
    assert!(matches!(worker.step(WorkerEvent::Start), WorkerAction::Receive));
    assert_eq!(worker.generation(), 1);
    let shard = vec!["a".to_string()];
    assert!(matches!(worker.step(WorkerEvent::Shard(shard)), WorkerAction::Evaluate(_)));
    let sent = match worker.step(WorkerEvent::Scores(vec![fit(0.5)])) {
        WorkerAction::Send(records) => records,
        _ => panic!("nothing sent"),
    };
    assert_eq!(sent, vec![GenerationRecord::new(1, 0, fit(0.5), Some("a".to_string()))]);
    assert!(matches!(worker.step(WorkerEvent::Flag(false)), WorkerAction::Receive));
    assert_eq!(worker.generation(), 2);
    assert!(matches!(worker.step(WorkerEvent::Shard(Vec::new())), WorkerAction::Evaluate(_)));
    assert!(matches!(worker.step(WorkerEvent::Scores(Vec::new())), WorkerAction::Send(_)));
    assert!(matches!(
        worker.step(WorkerEvent::Flag(false)),
        WorkerAction::Terminate(Termination::GenerationCap)
    ));
    let mut other = Worker::new(config(1.0, 0));
    assert!(matches!(other.step(WorkerEvent::Start), WorkerAction::Receive));
    assert!(matches!(other.step(WorkerEvent::Shard(Vec::new())), WorkerAction::Evaluate(_)));
    assert!(matches!(other.step(WorkerEvent::Scores(Vec::new())), WorkerAction::Send(_)));
    assert!(matches!(
        other.step(WorkerEvent::Flag(true)),
        WorkerAction::Terminate(Termination::DesiredFitness)
    ));
    assert_eq!(other.generation(), 1);
}

#[test]
fn worker_rejects_scores_that_do_not_match_its_shard() {
    let mut worker = Worker::new(config(1.0, 0));
    assert!(matches!(worker.step(WorkerEvent::Start), WorkerAction::Receive));
    assert!(matches!(
        worker.step(WorkerEvent::Shard(vec!["a".to_string()])),
        WorkerAction::Evaluate(_)
    ));
    assert!(matches!(
        worker.step(WorkerEvent::Scores(Vec::new())),
        WorkerAction::Fail(ExploreError::ProtocolFailure)
    ));
    assert_eq!(worker.phase(), WorkerPhase::Terminate);
}
