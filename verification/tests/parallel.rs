use grit_protocol::clock::Timestamp;
use grit_protocol::object::{ObjectId, ObjectKind};
use grit_protocol::push_metrics::ReceivePackLimits;
use grit_protocol::push_pack_validation::{
    PushPackByteSpan, PushPackEntryKind, PushPackIndexRow, PushPackValidationControl,
    PushPackValidationObservation,
};
use grit_protocol::push_parallel_validation::{
    accept_observation, map_executor_error, select_wave, validate_costs, validate_index_parallel,
    validate_scheduler_memory, verify_results, ParallelValidationByteCost, ParallelValidationCost,
    ParallelValidationDependency, ParallelValidationError, ParallelValidationExecutor,
    ParallelValidationExecutorError, ParallelValidationLimits, ParallelValidationReport,
    ParallelValidationRetainedBase, ParallelValidationTask, ParallelValidationTaskFailure,
    ParallelValidationTaskOutput, ParallelValidationTaskResult, ParallelValidationWork,
    ParallelValidationWorkLimit, WaveBounds,
};

fn at(unix_nanos: i128) -> Timestamp {
    Timestamp { unix_nanos }
}

fn oid(byte: u8) -> ObjectId {
    ObjectId::from_bytes(&[byte; 20]).unwrap()
}

fn row(byte: u8, offset: u64, representation: PushPackEntryKind) -> PushPackIndexRow {
    let span = PushPackByteSpan { offset, length: 10 };
    PushPackIndexRow {
        ordinal: byte as u32,
        oid: oid(byte),
        kind: ObjectKind::Blob,
        entry: span,
        header: span,
        base_header: span,
        compressed: span,
        declared_size: 5,
        resolved_size: 5,
        delta_depth: 0,
        crc32: 0,
        representation,
    }
}

fn ofs(byte: u8, offset: u64, base: u8, base_offset: u64) -> PushPackIndexRow {
    row(byte, offset, PushPackEntryKind::OfsDelta { base_offset, base_oid: oid(base) })
}

fn reference(byte: u8, offset: u64, base: u8, external: bool) -> PushPackIndexRow {
    row(byte, offset, PushPackEntryKind::RefDelta { base_oid: oid(base), external })
}

fn cost(bytes: u64) -> ParallelValidationCost {
    ParallelValidationCost::Known(ParallelValidationByteCost {
        compressed_input: 0,
        base: 0,
        instructions: 0,
        result: bytes,
        structural_metadata: 0,
    })
}

fn limits() -> ParallelValidationLimits {
    ParallelValidationLimits {
        receive: ReceivePackLimits::default(),
        worker_count: 2,
        range_concurrency: 1,
        wave_bytes: 100,
        hard_task_bytes: 500,
        base_cache_bytes: 200,
        started_at: at(10),
        deadline: at(1_000),
    }
}

struct Clock {
    cancel_after: u64,
}

impl PushPackValidationControl for Clock {
    fn observe(&mut self) -> PushPackValidationObservation {
        let cancelled = self.cancel_after == 0;
        self.cancel_after = self.cancel_after.saturating_sub(1);
        PushPackValidationObservation { observed_at: at(20), cancelled }
    }
}

#[derive(Clone, Copy, PartialEq)]
enum Fault {
    Sound,
    Backend,
    Drop,
    Reject(usize),
    Depth,
    Forget,
    Overfull,
    Surplus,
}

struct Worker {
    waves: Vec<Vec<usize>>,
    deadlines: Vec<Timestamp>,
    bases: Vec<(usize, Option<usize>)>,
    parents: Vec<usize>,
    fault: Fault,
}

impl Worker {
    fn new(parents: &[usize], fault: Fault) -> Worker {
        Worker { waves: Vec::new(), deadlines: Vec::new(), bases: Vec::new(), parents: parents.to_vec(), fault }
    }
}

impl ParallelValidationExecutor for Worker {
    type Base = usize;
    type Metadata = u64;

    fn execute_wave(
        &mut self,
        tasks: Vec<ParallelValidationTask<usize>>,
        deadline: Timestamp,
    ) -> Result<Vec<ParallelValidationTaskResult<usize, u64>>, ParallelValidationExecutorError> {
        self.deadlines.push(deadline);
        if self.fault == Fault::Backend {
            return Err(ParallelValidationExecutorError::Backend);
        }
        self.waves.push(tasks.iter().map(|task| task.index).collect());
        let mut results = Vec::new();
        for task in tasks.iter().rev() {
            self.bases.push((task.index, task.base));
            let parent = self.parents.contains(&task.index);
            let mut retained_base = None;
            if (parent && self.fault != Fault::Forget) || self.fault == Fault::Surplus {
                let bytes = if self.fault == Fault::Overfull { 400 } else { 7 };
                retained_base = Some(ParallelValidationRetainedBase { handle: task.index, bytes });
            }
            let extra = if self.fault == Fault::Depth { 1 } else { 0 };
            let output = ParallelValidationTaskOutput {
                metadata: 100 + task.index as u64,
                delta_depth: task.expected_delta_depth + extra,
                retained_base,
            };
            let result = match self.fault {
                Fault::Reject(index) if task.index >= index => {
                    Err(ParallelValidationTaskFailure::CanonicalHash)
                }
                _ => Ok(output),
            };
            results.push(ParallelValidationTaskResult { index: task.index, result });
        }
        if self.fault == Fault::Drop {
            results.pop();
        }
        Ok(results)
    }
}

fn run(
    rows: &[PushPackIndexRow],
    costs: &[ParallelValidationCost],
    worker: &mut Worker,
) -> Result<ParallelValidationReport<u64>, ParallelValidationError> {
    validate_index_parallel(
        rows,
        costs,
        worker,
        &mut Clock { cancel_after: u64::MAX },
        &mut ParallelValidationWorkLimit::new(100_000),
        limits(),
    )
}

fn chain() -> Vec<PushPackIndexRow> {
    vec![
        row(1, 12, PushPackEntryKind::Direct),
        ofs(2, 30, 1, 12),
        reference(3, 50, 2, false),
        row(4, 70, PushPackEntryKind::Direct),
    ]
}

#[test]
fn waves_follow_dependencies_and_order() {
    let mut worker = Worker::new(&[0, 1], Fault::Sound);
    let costs = vec![cost(40), cost(40), cost(40), cost(40)];
    let report = run(&chain(), &costs, &mut worker).unwrap();
    assert_eq!(report.metadata, vec![100, 101, 102, 103]);
    assert_eq!(worker.waves, vec![vec![0, 3], vec![1], vec![2]]);
    assert_eq!(worker.bases, vec![(3, None), (0, None), (1, Some(0)), (2, Some(1))]);
    assert_eq!(worker.deadlines, vec![at(1_000); 3]);
    assert_eq!(report.waves, 3);
    assert_eq!(report.peak_tasks, 2);
    assert_eq!(report.peak_wave_bytes, 80);
    assert_eq!(report.peak_base_cache_bytes, 7);
}

#[test]
fn an_empty_index_needs_no_wave() {
    let mut worker = Worker::new(&[], Fault::Sound);
    let report = run(&[], &[], &mut worker).unwrap();
    assert!(report.metadata.is_empty());
    assert_eq!((report.waves, report.peak_tasks), (0, 0));
    assert!(worker.waves.is_empty());
}

#[test]
fn unknown_costs_run_alone() {
    let rows = vec![
        row(1, 12, PushPackEntryKind::Direct),
        row(2, 30, PushPackEntryKind::Direct),
        row(3, 50, PushPackEntryKind::Direct),
    ];
    let costs = vec![cost(10), ParallelValidationCost::Unknown { hard_upper_bound: 20 }, cost(10)];
    let mut worker = Worker::new(&[], Fault::Sound);
    let report = run(&rows, &costs, &mut worker).unwrap();
    assert_eq!(worker.waves, vec![vec![0], vec![1], vec![2]]);
    assert_eq!(report.peak_tasks, 1);
}

#[test]
fn executor_faults_are_reported() {
    let costs = vec![cost(40), cost(40), cost(40), cost(40)];
    let fault = |fault: Fault| {
        run(&chain(), &costs, &mut Worker::new(&[0, 1], fault)).err().unwrap()
    };
    assert_eq!(fault(Fault::Backend), ParallelValidationError::Executor);
    assert_eq!(fault(Fault::Drop), ParallelValidationError::ExecutorContract);
    assert_eq!(
        fault(Fault::Reject(0)),
        ParallelValidationError::Entry {
            index: 0,
            failure: ParallelValidationTaskFailure::CanonicalHash,
        }
    );
    assert_eq!(
        fault(Fault::Reject(2)),
        ParallelValidationError::Entry {
            index: 3,
            failure: ParallelValidationTaskFailure::CanonicalHash,
        }
    );
    assert_eq!(fault(Fault::Depth), ParallelValidationError::DeltaDepth);
    assert_eq!(fault(Fault::Forget), ParallelValidationError::BaseCache);
    assert_eq!(fault(Fault::Overfull), ParallelValidationError::BaseCache);
    assert_eq!(fault(Fault::Surplus), ParallelValidationError::ExecutorContract);
}

#[test]
fn broken_graphs_run_nothing() {
    let costs = vec![cost(1), cost(1)];
    let fault = |rows: Vec<PushPackIndexRow>| {
        let mut worker = Worker::new(&[], Fault::Sound);
        let error = run(&rows, &costs, &mut worker).err().unwrap();
        assert!(worker.waves.is_empty());
        error
    };
    let direct = row(1, 12, PushPackEntryKind::Direct);
    assert_eq!(
        fault(vec![direct, ofs(2, 30, 9, 13)]),
        ParallelValidationError::MissingDependency
    );
    assert_eq!(
        fault(vec![ofs(2, 30, 1, 40), direct]),
        ParallelValidationError::MissingDependency
    );
    assert_eq!(
        fault(vec![direct, reference(2, 30, 9, false)]),
        ParallelValidationError::MissingDependency
    );
    assert_eq!(
        fault(vec![direct, row(1, 30, PushPackEntryKind::Direct)]),
        ParallelValidationError::MissingDependency
    );
    assert_eq!(
        fault(vec![reference(1, 12, 2, false), reference(2, 30, 1, false)]),
        ParallelValidationError::DependencyCycle
    );
}

#[test]
fn limits_costs_and_signals_stop_validation() {
    let rows = vec![row(1, 12, PushPackEntryKind::Direct)];
    let fault = |change: fn(&mut ParallelValidationLimits), costs: Vec<ParallelValidationCost>, cancel_after: u64, units: u64| {
        let mut bounds = limits();
        change(&mut bounds);
        validate_index_parallel(
            &rows,
            &costs,
            &mut Worker::new(&[], Fault::Sound),
            &mut Clock { cancel_after },
            &mut ParallelValidationWorkLimit::new(units),
            bounds,
        )
        .err()
        .unwrap()
    };
    let one = || vec![cost(40)];
    assert_eq!(fault(|bounds| bounds.worker_count = 0, one(), 99, 99), ParallelValidationError::InvalidLimits);
    assert_eq!(fault(|bounds| bounds.range_concurrency = 3, one(), 99, 99), ParallelValidationError::InvalidLimits);
    assert_eq!(fault(|bounds| bounds.deadline = at(10), one(), 99, 99), ParallelValidationError::InvalidLimits);
    assert_eq!(fault(|_| (), Vec::new(), 99, 99), ParallelValidationError::InvalidCost);
    assert_eq!(fault(|_| (), vec![cost(0)], 99, 99), ParallelValidationError::InvalidCost);
    assert_eq!(fault(|_| (), vec![cost(501)], 99, 99), ParallelValidationError::TaskTooLarge);
    assert_eq!(fault(|_| (), one(), 0, 99), ParallelValidationError::Cancelled);
    assert_eq!(fault(|_| (), one(), 4, 99), ParallelValidationError::Cancelled);
    assert_eq!(fault(|_| (), one(), 99, 3), ParallelValidationError::WorkBudget);
    assert_eq!(fault(|bounds| bounds.deadline = at(20), one(), 99, 99), ParallelValidationError::Deadline);
    assert_eq!(fault(|bounds| bounds.started_at = at(21), one(), 99, 99), ParallelValidationError::Deadline);
    assert_eq!(
        fault(|bounds| bounds.receive.max_metadata_memory_bytes = 600, one(), 99, 99),
        ParallelValidationError::SchedulerMemory
    );
}

#[test]
fn waves_keep_worker_range_and_byte_bounds() {
    let ready = vec![(10, 0), (20, 1), (30, 2), (40, 3)];
    let costs = vec![cost(30), cost(30), cost(50), cost(20)];
    let totals = vec![30, 30, 50, 20];
    let external = ParallelValidationDependency::ExternalRefDelta { base_oid: oid(9) };
    let direct = ParallelValidationDependency::Direct;
    let bounds = WaveBounds { worker_count: 3, range_concurrency: 1, wave_bytes: 90, available_bytes: 90 };
    assert_eq!(
        select_wave(&ready, &costs, &totals, &vec![direct, direct, direct, direct], bounds),
        vec![0, 1, 3]
    );
    assert_eq!(
        select_wave(&ready, &costs, &totals, &vec![external, external, direct, direct], bounds),
        vec![0, 2]
    );
    let tight = WaveBounds { worker_count: 3, range_concurrency: 1, wave_bytes: 90, available_bytes: 25 };
    assert_eq!(
        select_wave(&ready, &costs, &totals, &vec![direct, direct, direct, direct], tight),
        vec![3]
    );
    let wide = vec![cost(30), cost(300), cost(50), cost(20)];
    assert_eq!(
        select_wave(&ready, &wide, &vec![30, 300, 50, 20], &vec![direct, direct, direct, direct], bounds),
        vec![0]
    );
}

#[test]
fn results_are_put_in_index_order() {
    let result = |index: usize| ParallelValidationTaskResult::<u8, u8> {
        index,
        result: Err(ParallelValidationTaskFailure::Delta),
    };
    let ordered = verify_results(vec![result(5), result(2)], &vec![2, 5]).unwrap();
    assert_eq!(ordered.iter().map(|result| result.index).collect::<Vec<usize>>(), vec![2, 5]);
    assert_eq!(
        verify_results(vec![result(5)], &vec![2, 5]).err(),
        Some(ParallelValidationError::ExecutorContract)
    );
    assert_eq!(
        verify_results(vec![result(5), result(5)], &vec![2, 5]).err(),
        Some(ParallelValidationError::ExecutorContract)
    );
}

#[test]
fn repeated_results_answer_repeated_tasks() {
    let result = |index: usize| ParallelValidationTaskResult::<u8, u8> {
        index,
        result: Err(ParallelValidationTaskFailure::Delta),
    };
    let ordered = verify_results(vec![result(2), result(5), result(2)], &vec![5, 2, 2]).unwrap();
    assert_eq!(ordered.iter().map(|result| result.index).collect::<Vec<usize>>(), vec![2, 2, 5]);
    assert_eq!(
        verify_results(vec![result(2), result(5), result(5)], &vec![5, 2, 2]).err(),
        Some(ParallelValidationError::ExecutorContract)
    );
}

#[test]
fn costs_are_totalled_exactly() {
    let full = ParallelValidationByteCost {
        compressed_input: 1,
        base: 2,
        instructions: 3,
        result: 4,
        structural_metadata: 5,
    };
    assert_eq!(full.total(), Ok(15));
    let wide = ParallelValidationByteCost { base: u64::MAX, ..full };
    assert_eq!(wide.total(), Err(ParallelValidationError::InvalidCost));
    assert_eq!(
        validate_costs(&[ParallelValidationCost::Known(full), ParallelValidationCost::Unknown { hard_upper_bound: 9 }], 20),
        Ok(vec![15, 9])
    );
    assert_eq!(validate_costs(&[cost(21)], 20), Err(ParallelValidationError::TaskTooLarge));
    assert!(validate_scheduler_memory::<u8, u8>(1, &[cost(1)], 1, 1 << 20).is_ok());
    assert_eq!(
        validate_scheduler_memory::<u8, u8>(1, &[cost(1)], 1, 100),
        Err(ParallelValidationError::SchedulerMemory)
    );
}

#[test]
fn observations_and_executor_errors_map_exactly() {
    let mut last = at(10);
    let seen = |nanos: i128, cancelled: bool| PushPackValidationObservation { observed_at: at(nanos), cancelled };
    assert_eq!(accept_observation(seen(15, false), at(10), at(20), &mut last), Ok(()));
    assert_eq!(last, at(15));
    assert_eq!(
        accept_observation(seen(14, false), at(10), at(20), &mut last),
        Err(ParallelValidationError::Deadline)
    );
    assert_eq!(
        accept_observation(seen(16, true), at(10), at(20), &mut last),
        Err(ParallelValidationError::Cancelled)
    );
    assert_eq!(
        accept_observation(seen(20, false), at(10), at(20), &mut last),
        Err(ParallelValidationError::Deadline)
    );
    assert_eq!(map_executor_error(ParallelValidationExecutorError::Cancelled), ParallelValidationError::Cancelled);
    assert_eq!(map_executor_error(ParallelValidationExecutorError::Deadline), ParallelValidationError::Deadline);
    assert_eq!(map_executor_error(ParallelValidationExecutorError::Backend), ParallelValidationError::Executor);
    let mut work = ParallelValidationWorkLimit::new(3);
    assert!(work.charge(2));
    assert!(!work.charge(2));
    assert_eq!(work.remaining(), 1);
}
