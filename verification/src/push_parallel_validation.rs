//! Bounded deterministic scheduling for parallel receive-pack validation.
//!
//! The complete dependency graph of an index is resolved before any work starts. Ready entries are
//! ordered by offset and admitted in waves that respect worker, range and byte bounds; an internal
//! delta is admitted only in a wave after the one that validated its base.

use crate::budget::{spends, work_kept};
use crate::clock::Timestamp;
use crate::object::ObjectId;
use crate::oid_map::OidMap;
use crate::push_metrics::ReceivePackLimits;
use crate::push_pack_validation::{
    PushPackEntryKind, PushPackIndexRow, PushPackValidationControl, PushPackValidationObservation,
};
use std::collections::HashMap;
use vstd::prelude::*;

verus! {

broadcast use vstd::std_specs::hash::group_hash_axioms;

/// Byte charges of one validation task.
#[derive(Clone, Copy, Debug, PartialEq, Eq, Structural)]
pub struct ParallelValidationByteCost {
    /// Compressed input bytes.
    pub compressed_input: u64,
    /// Resolved base bytes.
    pub base: u64,
    /// Inflated delta instruction bytes.
    pub instructions: u64,
    /// Resolved result bytes.
    pub result: u64,
    /// Structural metadata kept after validation.
    pub structural_metadata: u64,
}

/// A charge of nothing.
pub open spec fn zero_cost() -> ParallelValidationByteCost {
    ParallelValidationByteCost {
        compressed_input: 0,
        base: 0,
        instructions: 0,
        result: 0,
        structural_metadata: 0,
    }
}

impl Default for ParallelValidationByteCost {
    fn default() -> (cost: Self)
        ensures
            cost == zero_cost(),
    {
        ParallelValidationByteCost {
            compressed_input: 0,
            base: 0,
            instructions: 0,
            result: 0,
            structural_metadata: 0,
        }
    }
}

/// Scheduling failure.
#[derive(Clone, Copy, Debug, PartialEq, Eq, Structural)]
pub enum ParallelValidationError {
    /// Limits are zero, inconsistent, or above a ceiling.
    InvalidLimits,
    /// Costs do not match the index, are zero, or overflow.
    InvalidCost,
    /// A task exceeds the absolute task ceiling.
    TaskTooLarge,
    /// A relation names no unique indexed base.
    MissingDependency,
    /// The dependency graph has a cycle.
    DependencyCycle,
    /// Retained bases exceed their bound or are absent.
    BaseCache,
    /// Scheduler bookkeeping exceeds its bound.
    SchedulerMemory,
    /// Cancellation was observed.
    Cancelled,
    /// The deadline elapsed, or observed time moved backwards.
    Deadline,
    /// The work budget is exhausted.
    WorkBudget,
    /// The executor failed.
    Executor,
    /// The executor returned missing, duplicate or unexpected results.
    ExecutorContract,
    /// The lowest entry of a wave that was rejected.
    Entry {
        /// Input index.
        index: usize,
        /// Why it was rejected.
        failure: ParallelValidationTaskFailure,
    },
    /// A delta depth is too large or disagrees with the graph.
    DeltaDepth,
}

/// Why an entry was rejected.
#[derive(Clone, Copy, Debug, PartialEq, Eq, Structural)]
pub enum ParallelValidationTaskFailure {
    /// Malformed zlib data.
    CompressedStream,
    /// The canonical hash does not match.
    CanonicalHash,
    /// Invalid delta.
    Delta,
    /// Structural parsing failed.
    StructuralMetadata,
    /// An external base could not be read or verified.
    ExternalBase,
    /// The task's byte ceiling was exceeded.
    ByteLimit,
}

impl ParallelValidationByteCost {
    /// The aggregate charge.
    pub open spec fn spec_total(self) -> int {
        self.compressed_input + self.base + self.instructions + self.result
            + self.structural_metadata
    }

    /// Return the aggregate charge.
    pub fn total(self) -> (result: Result<u64, ParallelValidationError>)
        ensures
            match result {
                Ok(total) => total == self.spec_total(),
                Err(error) => error == ParallelValidationError::InvalidCost && self.spec_total()
                    > u64::MAX,
            },
    {
        let total: u128 = self.compressed_input as u128 + self.base as u128
            + self.instructions as u128 + self.result as u128 + self.structural_metadata as u128;
        if total > u64::MAX as u128 {
            return Err(ParallelValidationError::InvalidCost);
        }
        Ok(total as u64)
    }
}

/// Admission estimate of one entry.
#[derive(Clone, Copy, Debug, PartialEq, Eq, Structural)]
pub enum ParallelValidationCost {
    /// Every component is known.
    Known(ParallelValidationByteCost),
    /// The estimate is uncertain; the task runs alone.
    Unknown {
        /// Maximum bytes that the executor may materialize.
        hard_upper_bound: u64,
    },
}

impl ParallelValidationCost {
    /// The charge of the task.
    pub open spec fn charge(self) -> int {
        match self {
            ParallelValidationCost::Known(cost) => cost.spec_total(),
            ParallelValidationCost::Unknown { hard_upper_bound } => hard_upper_bound as int,
        }
    }

    /// The metadata that the task keeps.
    pub open spec fn kept(self) -> u64 {
        match self {
            ParallelValidationCost::Known(cost) => cost.structural_metadata,
            ParallelValidationCost::Unknown { hard_upper_bound } => hard_upper_bound,
        }
    }

    /// The most bytes that the task's result may take.
    pub open spec fn spec_result_bytes(self) -> u64 {
        match self {
            ParallelValidationCost::Known(cost) => cost.result,
            ParallelValidationCost::Unknown { hard_upper_bound } => hard_upper_bound,
        }
    }

    fn result_bytes(self) -> (bytes: u64)
        ensures
            bytes == self.spec_result_bytes(),
    {
        match self {
            ParallelValidationCost::Known(cost) => cost.result,
            ParallelValidationCost::Unknown { hard_upper_bound } => hard_upper_bound,
        }
    }
}

/// Resolved dependency of one entry.
#[derive(Clone, Copy, Debug, PartialEq, Eq, Structural)]
pub enum ParallelValidationDependency {
    /// No base.
    Direct,
    /// OFS-delta on an indexed entry.
    OfsDelta {
        /// Input index of the base.
        base_index: usize,
    },
    /// REF-delta on an indexed entry.
    InternalRefDelta {
        /// Input index of the base.
        base_index: usize,
    },
    /// REF-delta on an authorized repository object.
    ExternalRefDelta {
        /// Base object.
        base_oid: ObjectId,
    },
}

impl ParallelValidationDependency {
    /// The input index of the base.
    pub open spec fn spec_base(self) -> Option<usize> {
        match self {
            ParallelValidationDependency::OfsDelta { base_index } => Some(base_index),
            ParallelValidationDependency::InternalRefDelta { base_index } => Some(base_index),
            _ => None,
        }
    }

    /// Return the input index of the base.
    pub fn base_index(self) -> (base: Option<usize>)
        ensures
            base == self.spec_base(),
    {
        match self {
            ParallelValidationDependency::OfsDelta { base_index } => Some(base_index),
            ParallelValidationDependency::InternalRefDelta { base_index } => Some(base_index),
            _ => None,
        }
    }

    /// Return whether the entry is a delta.
    pub fn is_delta(self) -> (delta: bool)
        ensures
            delta == (self !is Direct),
    {
        match self {
            ParallelValidationDependency::Direct => false,
            _ => true,
        }
    }

    /// Return whether the entry reads an external base.
    fn is_external(self) -> (external: bool)
        ensures
            external == (self is ExternalRefDelta),
    {
        match self {
            ParallelValidationDependency::ExternalRefDelta { .. } => true,
            _ => false,
        }
    }
}

/// Bounds of one scheduler run.
#[derive(Clone, Copy, Debug, PartialEq, Eq, Structural)]
pub struct ParallelValidationLimits {
    /// Receive-pack limits.
    pub receive: ReceivePackLimits,
    /// Maximum tasks in one wave.
    pub worker_count: usize,
    /// Maximum external-base tasks in one wave.
    pub range_concurrency: usize,
    /// Aggregate bytes in one wave.
    pub wave_bytes: u64,
    /// Absolute task ceiling.
    pub hard_task_bytes: u64,
    /// Maximum bytes of retained bases.
    pub base_cache_bytes: u64,
    /// Start time.
    pub started_at: Timestamp,
    /// Deadline.
    pub deadline: Timestamp,
}

impl ParallelValidationLimits {
    /// The limits may be used.
    pub open spec fn valid(self) -> bool {
        &&& self.receive.fault() is None
        &&& 0 < self.range_concurrency <= self.worker_count <= self.receive.worker_count
        &&& 0 < self.wave_bytes <= self.receive.bytes_in_flight
        &&& 0 < self.hard_task_bytes <= self.receive.bytes_in_flight
        &&& 0 < self.base_cache_bytes <= self.receive.max_delta_base_memory_bytes
        &&& self.started_at.unix_nanos < self.deadline.unix_nanos
        &&& self.deadline.unix_nanos - self.started_at.unix_nanos <= self.receive.max_duration.nanos
    }

    /// Validate concurrency, memory and time.
    pub fn validate(self) -> (result: Result<Self, ParallelValidationError>)
        ensures
            result == if self.valid() {
                Ok::<Self, ParallelValidationError>(self)
            } else {
                Err(ParallelValidationError::InvalidLimits)
            },
    {
        if self.receive.validate().is_err() {
            return Err(ParallelValidationError::InvalidLimits);
        }
        proof {
            crate::push_metrics::law_valid_limits_are_bounded(self.receive);
        }
        let receive = self.receive;
        if self.worker_count == 0 || self.worker_count > receive.worker_count
            || self.range_concurrency == 0 || self.range_concurrency > self.worker_count
            || self.wave_bytes == 0 || self.wave_bytes > receive.bytes_in_flight
            || self.hard_task_bytes == 0 || self.hard_task_bytes > receive.bytes_in_flight
            || self.base_cache_bytes == 0 || self.base_cache_bytes
            > receive.max_delta_base_memory_bytes || self.deadline.unix_nanos
            <= self.started_at.unix_nanos {
            return Err(ParallelValidationError::InvalidLimits);
        }
        match self.deadline.unix_nanos.checked_sub(self.started_at.unix_nanos) {
            Some(elapsed) => {
                if elapsed as u128 > receive.max_duration.nanos {
                    return Err(ParallelValidationError::InvalidLimits);
                }
                Ok(self)
            },
            None => Err(ParallelValidationError::InvalidLimits),
        }
    }
}

/// Work budget.
pub trait ParallelValidationWork {
    /// A charge may be answered so.
    closed spec fn answers(units: u64, charged: bool) -> bool {
        true
    }

    /// Units left, where the budget counts them.
    closed spec fn allowance(&self) -> Option<nat> {
        None
    }

    /// Charge work units; `false` means that the budget is exhausted.
    fn charge(&mut self, units: u64) -> (charged: bool)
        ensures
            Self::answers(units, charged),
            spends(old(self).allowance(), final(self).allowance(), units, charged),
    ;
}

/// Counter-based work budget.
#[derive(Clone, Copy, Debug, PartialEq, Eq, Structural)]
pub struct ParallelValidationWorkLimit {
    remaining: u64,
}

impl ParallelValidationWorkLimit {
    /// Units left.
    pub closed spec fn left(self) -> u64 {
        self.remaining
    }

    /// Create an exact allowance.
    pub fn new(units: u64) -> (limit: Self)
        ensures
            limit.left() == units,
    {
        ParallelValidationWorkLimit { remaining: units }
    }

    /// Return the units left.
    pub fn remaining(&self) -> (units: u64)
        ensures
            units == self.left(),
    {
        self.remaining
    }
}

impl ParallelValidationWork for ParallelValidationWorkLimit {
    /// A charge of nothing is never refused.
    open spec fn answers(units: u64, charged: bool) -> bool {
        charged || units > 0
    }

    /// What is left.
    open spec fn allowance(&self) -> Option<nat> {
        Some(self.left() as nat)
    }

    fn charge(&mut self, units: u64) -> (charged: bool)
        ensures
            charged == (units <= old(self).left()),
            final(self).left() == if charged {
                (old(self).left() - units) as u64
            } else {
                old(self).left()
            },
    {
        if units > self.remaining {
            return false;
        }
        self.remaining = self.remaining - units;
        true
    }
}

/// Decoded base kept while dependents need it.
#[derive(Debug)]
pub struct ParallelValidationRetainedBase<B> {
    /// Base handle.
    pub handle: B,
    /// Bytes that the handle keeps.
    pub bytes: u64,
}

/// One task of a wave.
#[derive(Debug)]
pub struct ParallelValidationTask<B> {
    /// Input index.
    pub index: usize,
    /// Index row.
    pub row: PushPackIndexRow,
    /// Resolved dependency.
    pub dependency: ParallelValidationDependency,
    /// Base handle of an internal delta.
    pub base: Option<B>,
    /// Delta depth that the executor must produce.
    pub expected_delta_depth: u32,
    /// Byte ceiling.
    pub byte_limit: u64,
}

/// Result of one task.
#[derive(Debug)]
pub struct ParallelValidationTaskOutput<B, M> {
    /// Metadata, without decoded payload.
    pub metadata: M,
    /// Produced delta depth.
    pub delta_depth: u32,
    /// Decoded result, where later entries depend on it.
    pub retained_base: Option<ParallelValidationRetainedBase<B>>,
}

/// Tagged completion of one task.
#[derive(Debug)]
pub struct ParallelValidationTaskResult<B, M> {
    /// Input index of the task.
    pub index: usize,
    /// Output or rejection.
    pub result: Result<ParallelValidationTaskOutput<B, M>, ParallelValidationTaskFailure>,
}

/// Failure of a whole wave, after all its work was reaped.
#[derive(Clone, Copy, Debug, PartialEq, Eq, Structural)]
pub enum ParallelValidationExecutorError {
    /// Cancellation was observed.
    Cancelled,
    /// The deadline elapsed.
    Deadline,
    /// A worker failed.
    Backend,
}

/// Executor of waves.
///
/// Tasks may complete in any order; all work of a wave is reaped before the call returns.
pub trait ParallelValidationExecutor {
    /// Shareable base handle.
    type Base: Clone;

    /// Metadata of one entry.
    type Metadata;

    /// The waves handed over so far.
    closed spec fn handed(&self) -> Seq<Seq<ParallelValidationTask<Self::Base>>> {
        Seq::empty()
    }

    /// The results returned so far, wave by wave.
    closed spec fn returned(&self) -> Seq<
        Seq<ParallelValidationTaskResult<Self::Base, Self::Metadata>>,
    > {
        Seq::empty()
    }

    /// The deadlines handed over so far, wave by wave.
    closed spec fn deadlines(&self) -> Seq<Timestamp> {
        Seq::empty()
    }

    /// A wave may fail so.
    closed spec fn fails(failure: ParallelValidationExecutorError) -> bool {
        true
    }

    /// Execute one wave.
    fn execute_wave(
        &mut self,
        tasks: Vec<ParallelValidationTask<Self::Base>>,
        deadline: Timestamp,
    ) -> (result: Result<
        Vec<ParallelValidationTaskResult<Self::Base, Self::Metadata>>,
        ParallelValidationExecutorError,
    >)
        ensures
            final(self).handed() == old(self).handed().push(tasks@),
            final(self).deadlines() == old(self).deadlines().push(deadline),
            final(self).returned() == match result {
                Ok(results) => old(self).returned().push(results@),
                Err(_) => old(self).returned(),
            },
            result matches Err(failure) ==> Self::fails(failure),
    ;
}

/// Ordered metadata of a validated index.
#[derive(Debug)]
pub struct ParallelValidationReport<M> {
    /// Metadata in index order.
    pub metadata: Vec<M>,
    /// Waves.
    pub waves: u64,
    /// Most tasks in one wave.
    pub peak_tasks: usize,
    /// Most bytes in one wave.
    pub peak_wave_bytes: u64,
    /// Most retained base bytes.
    pub peak_base_cache_bytes: u64,
}

/// The scheduler's name for an executor failure.
pub open spec fn mapped_error(error: ParallelValidationExecutorError) -> ParallelValidationError {
    match error {
        ParallelValidationExecutorError::Cancelled => ParallelValidationError::Cancelled,
        ParallelValidationExecutorError::Deadline => ParallelValidationError::Deadline,
        ParallelValidationExecutorError::Backend => ParallelValidationError::Executor,
    }
}

/// Map an executor failure.
pub fn map_executor_error(error: ParallelValidationExecutorError) -> (mapped:
    ParallelValidationError)
    ensures
        mapped == mapped_error(error),
{
    match error {
        ParallelValidationExecutorError::Cancelled => ParallelValidationError::Cancelled,
        ParallelValidationExecutorError::Deadline => ParallelValidationError::Deadline,
        ParallelValidationExecutorError::Backend => ParallelValidationError::Executor,
    }
}

/// Accept one observation: time never goes back, and the run is neither cancelled nor over.
pub fn accept_observation(
    observation: PushPackValidationObservation,
    started_at: Timestamp,
    deadline: Timestamp,
    last_observed_at: &mut Timestamp,
) -> (result: Result<(), ParallelValidationError>)
    ensures
        result == if observation.observed_at.unix_nanos < old(last_observed_at).unix_nanos {
            Err::<(), ParallelValidationError>(ParallelValidationError::Deadline)
        } else if observation.cancelled {
            Err(ParallelValidationError::Cancelled)
        } else if observation.observed_at.unix_nanos < started_at.unix_nanos
            || observation.observed_at.unix_nanos >= deadline.unix_nanos {
            Err(ParallelValidationError::Deadline)
        } else {
            Ok(())
        },
        *final(last_observed_at) == if observation.observed_at.unix_nanos < old(last_observed_at).unix_nanos {
            *old(last_observed_at)
        } else {
            observation.observed_at
        },
{
    if observation.observed_at.unix_nanos < last_observed_at.unix_nanos {
        return Err(ParallelValidationError::Deadline);
    }
    *last_observed_at = observation.observed_at;
    if observation.cancelled {
        return Err(ParallelValidationError::Cancelled);
    }
    if observation.observed_at.unix_nanos < started_at.unix_nanos
        || observation.observed_at.unix_nanos >= deadline.unix_nanos {
        return Err(ParallelValidationError::Deadline);
    }
    Ok(())
}

/// Observation, work budget and times of one run.
struct Checkpoints {
    started_at: Timestamp,
    deadline: Timestamp,
    last_observed_at: Timestamp,
}

impl Checkpoints {
    /// The latest accepted time was observed.
    spec fn known<C: PushPackValidationControl>(self) -> bool {
        seen_at::<C>(self.started_at, self.last_observed_at)
    }

    /// The run's times are the same.
    spec fn same_window(self, other: Checkpoints) -> bool {
        self.started_at == other.started_at && self.deadline == other.deadline
    }

    /// One observation came to this: time that moved back is refused, any other is remembered, a
    /// cancelled or late one is refused, and otherwise the charge decides.
    spec fn passed<W: ParallelValidationWork>(
        self,
        before: Checkpoints,
        observation: PushPackValidationObservation,
        units: u64,
        result: Result<(), ParallelValidationError>,
    ) -> bool {
        let time = observation.observed_at.unix_nanos;
        if time < before.last_observed_at.unix_nanos {
            result == Err::<(), ParallelValidationError>(ParallelValidationError::Deadline) && self
                == before
        } else {
            &&& self == (Checkpoints { last_observed_at: observation.observed_at, ..before })
            &&& if observation.cancelled {
                result == Err::<(), ParallelValidationError>(ParallelValidationError::Cancelled)
            } else if time < before.started_at.unix_nanos || time >= before.deadline.unix_nanos {
                result == Err::<(), ParallelValidationError>(ParallelValidationError::Deadline)
            } else {
                ||| result is Ok && W::answers(units, true)
                ||| result == Err::<(), ParallelValidationError>(
                    ParallelValidationError::WorkBudget,
                ) && W::answers(units, false)
            }
        }
    }

    /// Observe time and cancellation, then charge units.
    fn pass<C: PushPackValidationControl, W: ParallelValidationWork>(
        &mut self,
        control: &mut C,
        work: &mut W,
        units: u64,
    ) -> (result: Result<(), ParallelValidationError>)
        requires
            old(self).known::<C>(),
        ensures
            final(self).known::<C>(),
            final(self).same_window(*old(self)),
            result matches Err(error) ==> interrupted::<C, W>(
                old(self).started_at,
                old(self).deadline,
                units,
                error,
            ),
            work_kept(
                old(work).allowance(),
                final(work).allowance(),
                result is Err && result->Err_0 == ParallelValidationError::WorkBudget,
                units as int,
            ),
            exists|observation: PushPackValidationObservation| #[trigger]
                C::observes(observation) && final(self).passed::<W>(
                    *old(self),
                    observation,
                    units,
                    result,
                ),
    {
        let observation = control.observe();
        accept_observation(
            observation,
            self.started_at,
            self.deadline,
            &mut self.last_observed_at,
        )?;
        if !work.charge(units) {
            return Err(ParallelValidationError::WorkBudget);
        }
        Ok(())
    }
}

/// The time is that of the start or of an observation.
pub open spec fn seen_at<C: PushPackValidationControl>(
    started_at: Timestamp,
    time: Timestamp,
) -> bool {
    time == started_at || exists|observation: PushPackValidationObservation| #[trigger]
        C::observes(observation) && observation.observed_at == time
}

/// The observation lies outside the run, or before an earlier time of it.
pub open spec fn untimely<C: PushPackValidationControl>(
    started_at: Timestamp,
    deadline: Timestamp,
    observation: PushPackValidationObservation,
) -> bool {
    ||| observation.observed_at.unix_nanos < started_at.unix_nanos
    ||| observation.observed_at.unix_nanos >= deadline.unix_nanos
    ||| exists|time: Timestamp| #[trigger]
        seen_at::<C>(started_at, time) && observation.observed_at.unix_nanos < time.unix_nanos
}

/// A checkpoint stopped the run from outside: its charge was refused, or its observation was
/// cancelled or untimely.
pub open spec fn interrupted<C: PushPackValidationControl, W: ParallelValidationWork>(
    started_at: Timestamp,
    deadline: Timestamp,
    units: u64,
    error: ParallelValidationError,
) -> bool {
    ||| error == ParallelValidationError::WorkBudget && W::answers(units, false)
    ||| error == ParallelValidationError::Cancelled
        && exists|observation: PushPackValidationObservation| #[trigger]
        C::observes(observation) && observation.cancelled
    ||| error == ParallelValidationError::Deadline
        && exists|observation: PushPackValidationObservation| #[trigger]
        C::observes(observation) && untimely::<C>(started_at, deadline, observation)
}

/// The first fault of the costs, if there is one.
pub open spec fn cost_fault(cost: ParallelValidationCost, hard_task_bytes: u64) -> Option<
    ParallelValidationError,
> {
    if cost.charge() > u64::MAX || cost.charge() == 0 {
        Some(ParallelValidationError::InvalidCost)
    } else if cost.charge() > hard_task_bytes {
        Some(ParallelValidationError::TaskTooLarge)
    } else {
        None
    }
}

/// Compute the charge of every task.
pub fn validate_costs(costs: &[ParallelValidationCost], hard_task_bytes: u64) -> (result: Result<
    Vec<u64>,
    ParallelValidationError,
>)
    ensures
        match result {
            Ok(totals) => {
                &&& totals@.len() == costs@.len()
                &&& forall|i: int|
                    0 <= i < costs@.len() ==> cost_fault(#[trigger] costs@[i], hard_task_bytes)
                        is None && totals@[i] == costs@[i].charge()
            },
            Err(error) => first_cost_fault(costs@, hard_task_bytes, error),
        },
{
    let mut totals: Vec<u64> = Vec::new();
    let mut at: usize = 0;
    while at < costs.len()
        invariant
            at <= costs@.len(),
            totals@.len() == at,
            forall|i: int|
                0 <= i < at ==> cost_fault(#[trigger] costs@[i], hard_task_bytes) is None
                    && totals@[i] == costs@[i].charge(),
        decreases costs.len() - at,
    {
        let total: u64 = match costs[at] {
            ParallelValidationCost::Known(cost) => match cost.total() {
                Ok(total) => total,
                Err(error) => {
                    assert(faulty_at(costs@, hard_task_bytes, error, at as int));
                    return Err(error);
                },
            },
            ParallelValidationCost::Unknown { hard_upper_bound } => hard_upper_bound,
        };
        if total == 0 {
            assert(faulty_at(
                costs@,
                hard_task_bytes,
                ParallelValidationError::InvalidCost,
                at as int,
            ));
            return Err(ParallelValidationError::InvalidCost);
        }
        if total > hard_task_bytes {
            assert(faulty_at(
                costs@,
                hard_task_bytes,
                ParallelValidationError::TaskTooLarge,
                at as int,
            ));
            return Err(ParallelValidationError::TaskTooLarge);
        }
        totals.push(total);
        at = at + 1;
    }
    Ok(totals)
}

/// The first faulty cost is at `at`, with this fault.
pub open spec fn faulty_at(
    costs: Seq<ParallelValidationCost>,
    hard_task_bytes: u64,
    error: ParallelValidationError,
    at: int,
) -> bool {
    &&& 0 <= at < costs.len()
    &&& cost_fault(costs[at], hard_task_bytes) == Some(error)
    &&& forall|i: int| 0 <= i < at ==> cost_fault(#[trigger] costs[i], hard_task_bytes) is None
}

/// Some cost is the first faulty one, with this fault.
pub open spec fn first_cost_fault(
    costs: Seq<ParallelValidationCost>,
    hard_task_bytes: u64,
    error: ParallelValidationError,
) -> bool {
    exists|at: int| #[trigger] faulty_at(costs, hard_task_bytes, error, at)
}

/// Metadata kept over all costs.
pub open spec fn kept_bytes(costs: Seq<ParallelValidationCost>) -> int
    decreases costs.len(),
{
    if costs.len() == 0 {
        0
    } else {
        kept_bytes(costs.drop_last()) + costs.last().kept()
    }
}

/// Kept metadata only grows.
proof fn lemma_kept_grows(costs: Seq<ParallelValidationCost>, count: int)
    requires
        0 <= count <= costs.len(),
    ensures
        0 <= kept_bytes(costs.take(count)) <= kept_bytes(costs),
    decreases costs.len(),
{
    if costs.len() == 0 {
        assert(costs.take(count) =~= costs);
    } else if count == costs.len() {
        assert(costs.take(count) =~= costs);
        assert(costs.drop_last().take(count - 1) =~= costs.drop_last());
        lemma_kept_grows(costs.drop_last(), count - 1);
    } else {
        lemma_kept_grows(costs.drop_last(), count);
        assert(costs.drop_last().take(count) =~= costs.take(count));
    }
}

/// Bytes of scheduler bookkeeping.
pub open spec fn scheduler_bytes<B, M>(
    rows: int,
    costs: Seq<ParallelValidationCost>,
    workers: int,
) -> int {
    rows * (512 + vstd::layout::size_of::<ParallelValidationDependency>()
        + vstd::layout::size_of::<Option<M>>() + vstd::layout::size_of::<CachedBase<B>>())
        + workers * (256 + vstd::layout::size_of::<ParallelValidationTask<B>>()
        + vstd::layout::size_of::<ParallelValidationTaskResult<B, M>>()) + kept_bytes(costs)
}

/// Base kept while dependents need it.
#[derive(Debug)]
pub struct CachedBase<B> {
    /// Base handle.
    pub handle: B,
    /// Bytes that the handle keeps.
    pub bytes: u64,
    /// Dependents that still need it.
    pub remaining_dependents: usize,
}

/// Check the bytes of scheduler bookkeeping.
pub fn validate_scheduler_memory<B, M>(
    rows: usize,
    costs: &[ParallelValidationCost],
    workers: usize,
    maximum: u64,
) -> (result: Result<(), ParallelValidationError>)
    ensures
        result == if scheduler_bytes::<B, M>(rows as int, costs@, workers as int) <= maximum {
            Ok::<(), ParallelValidationError>(())
        } else {
            Err(ParallelValidationError::SchedulerMemory)
        },
{
    let node: u128 = 512 + std::mem::size_of::<ParallelValidationDependency>() as u128
        + std::mem::size_of::<Option<M>>() as u128 + std::mem::size_of::<CachedBase<B>>() as u128;
    let worker: u128 = 256 + std::mem::size_of::<ParallelValidationTask<B>>() as u128
        + std::mem::size_of::<ParallelValidationTaskResult<B, M>>() as u128;
    let ghost fixed = rows * node + workers * worker;
    proof {
        assert(rows * node >= 0) by (nonlinear_arith)
            requires
                rows >= 0,
                node >= 0,
        ;
        assert(workers * worker >= 0) by (nonlinear_arith)
            requires
                workers >= 0,
                worker >= 0,
        ;
        lemma_kept_grows(costs@, 0);
        assert(costs@.take(0) =~= Seq::<ParallelValidationCost>::empty());
    }
    let node_total: u128 = match (rows as u128).checked_mul(node) {
        Some(total) => total,
        None => {
            return Err(ParallelValidationError::SchedulerMemory);
        },
    };
    let worker_total: u128 = match (workers as u128).checked_mul(worker) {
        Some(total) => total,
        None => {
            return Err(ParallelValidationError::SchedulerMemory);
        },
    };
    if node_total > maximum as u128 || worker_total > maximum as u128 {
        return Err(ParallelValidationError::SchedulerMemory);
    }
    let mut total: u128 = node_total + worker_total;
    let mut at: usize = 0;
    while at < costs.len()
        invariant
            at <= costs@.len(),
            total == fixed + kept_bytes(costs@.take(at as int)),
            total <= 2 * (maximum as u128) + at * (u64::MAX as u128),
            fixed >= 0,
            scheduler_bytes::<B, M>(rows as int, costs@, workers as int) == fixed + kept_bytes(
                costs@,
            ),
        decreases costs.len() - at,
    {
        let bytes: u64 = match costs[at] {
            ParallelValidationCost::Known(cost) => cost.structural_metadata,
            ParallelValidationCost::Unknown { hard_upper_bound } => hard_upper_bound,
        };
        proof {
            let next = costs@.take(at + 1);
            assert(next.drop_last() =~= costs@.take(at as int));
            assert(next.last() == costs@[at as int]);
            lemma_kept_grows(costs@, at + 1);
            assert(at * (u64::MAX as u128) <= 0xffff_ffff_ffff_ffff * 0xffff_ffff_ffff_ffff)
                by (nonlinear_arith)
                requires
                    at <= 0xffff_ffff_ffff_ffff,
                    u64::MAX as u128 == 0xffff_ffff_ffff_ffff,
            ;
            assert((at + 1) * (u64::MAX as u128) == at * (u64::MAX as u128) + u64::MAX as u128)
                by (nonlinear_arith);
        }
        if total > maximum as u128 || bytes as u128 > maximum as u128 - total {
            return Err(ParallelValidationError::SchedulerMemory);
        }
        total = total + bytes as u128;
        at = at + 1;
    }
    assert(costs@.take(at as int) =~= costs@);
    if total > maximum as u128 {
        return Err(ParallelValidationError::SchedulerMemory);
    }
    Ok(())
}

/// No two rows share an offset or an object.
pub open spec fn rows_distinct(rows: Seq<PushPackIndexRow>) -> bool {
    forall|i: int, j: int|
        #![trigger rows[i], rows[j]]
        0 <= i < j < rows.len() ==> rows[i].entry.offset != rows[j].entry.offset && rows[i].oid
            != rows[j].oid
}

/// The dependency is the one that a row's representation names.
pub open spec fn dependency_fits(
    rows: Seq<PushPackIndexRow>,
    i: int,
    dependency: ParallelValidationDependency,
) -> bool {
    match rows[i].representation {
        PushPackEntryKind::Direct => dependency is Direct,
        PushPackEntryKind::OfsDelta { base_offset, .. } => {
            &&& dependency is OfsDelta
            &&& dependency->OfsDelta_base_index < i
            &&& base_offset < rows[i].entry.offset
            &&& rows[dependency->OfsDelta_base_index as int].entry.offset == base_offset
        },
        PushPackEntryKind::RefDelta { base_oid, external } => if external {
            &&& dependency == (ParallelValidationDependency::ExternalRefDelta { base_oid })
            &&& forall|j: int| 0 <= j < rows.len() ==> (#[trigger] rows[j]).oid != base_oid
        } else {
            &&& dependency is InternalRefDelta
            &&& dependency->InternalRefDelta_base_index < rows.len()
            &&& rows[dependency->InternalRefDelta_base_index as int].oid == base_oid
        },
    }
}

/// Every row has its dependency.
pub open spec fn graph_resolved(
    rows: Seq<PushPackIndexRow>,
    dependencies: Seq<ParallelValidationDependency>,
) -> bool {
    &&& dependencies.len() == rows.len()
    &&& forall|i: int|
        0 <= i < rows.len() ==> dependency_fits(rows, i, #[trigger] dependencies[i])
}

/// The row has no dependency that fits.
pub open spec fn unresolvable(rows: Seq<PushPackIndexRow>, i: int) -> bool {
    &&& 0 <= i < rows.len()
    &&& forall|dependency: ParallelValidationDependency| !dependency_fits(rows, i, dependency)
}

/// The base of an entry.
pub open spec fn base_at(dependencies: Seq<ParallelValidationDependency>, i: int) -> Option<usize> {
    dependencies[i].spec_base()
}

/// A nonempty set of entries, each of which depends on another of the set.
pub open spec fn is_cycle(
    dependencies: Seq<ParallelValidationDependency>,
    members: Set<int>,
) -> bool {
    &&& exists|i: int| #[trigger] members.contains(i)
    &&& forall|i: int|
        members.contains(i) ==> 0 <= i < dependencies.len() && (#[trigger] base_at(
            dependencies,
            i,
        )) is Some && members.contains(base_at(dependencies, i)->0 as int)
}

/// Some dependencies that fit the rows go round in a cycle.
pub open spec fn has_cycle(rows: Seq<PushPackIndexRow>) -> bool {
    exists|dependencies: Seq<ParallelValidationDependency>, members: Set<int>|
        prefix_resolved(rows, dependencies) && #[trigger] is_cycle(dependencies, members)
}

/// The first rows have their dependencies.
pub open spec fn prefix_resolved(
    rows: Seq<PushPackIndexRow>,
    dependencies: Seq<ParallelValidationDependency>,
) -> bool {
    &&& dependencies.len() <= rows.len()
    &&& forall|i: int|
        0 <= i < dependencies.len() ==> dependency_fits(rows, i, #[trigger] dependencies[i])
}

/// Every entry stands once in the order, behind its base.
pub open spec fn topological(
    dependencies: Seq<ParallelValidationDependency>,
    order: Seq<usize>,
) -> bool {
    &&& order.len() == dependencies.len()
    &&& order.no_duplicates()
    &&& forall|k: int| 0 <= k < order.len() ==> #[trigger] order[k] < dependencies.len()
    &&& forall|k: int|
        0 <= k < order.len() && (#[trigger] base_at(dependencies, order[k] as int)) is Some
            ==> order.take(k).contains(base_at(dependencies, order[k] as int)->0)
}

/// Some order puts every entry behind its base.
pub open spec fn acyclic(dependencies: Seq<ParallelValidationDependency>) -> bool {
    exists|order: Seq<usize>| #[trigger] topological(dependencies, order)
}

/// Dependencies with such an order have no cycle.
pub proof fn law_ordered_graph_has_no_cycle(
    dependencies: Seq<ParallelValidationDependency>,
    members: Set<int>,
)
    requires
        acyclic(dependencies),
    ensures
        !is_cycle(dependencies, members),
{
    let order = choose|order: Seq<usize>| #[trigger] topological(dependencies, order);
    if is_cycle(dependencies, members) {
        let i = choose|i: int| #[trigger] members.contains(i);
        assert(base_at(dependencies, i) is Some);
        lemma_order_covers(dependencies, order, i);
        let k = choose|k: int| 0 <= k < order.len() && order[k] == i as usize;
        assert(order[k] as int == i);
        lemma_cycle_descends(dependencies, order, members, k);
    }
}

/// A cycle would lead to ever earlier places.
proof fn lemma_cycle_descends(
    dependencies: Seq<ParallelValidationDependency>,
    order: Seq<usize>,
    members: Set<int>,
    k: int,
)
    requires
        topological(dependencies, order),
        0 <= k < order.len(),
        members.contains(order[k] as int),
    ensures
        !is_cycle(dependencies, members),
    decreases k,
{
    if is_cycle(dependencies, members) {
        let base = base_at(dependencies, order[k] as int)->0;
        assert(members.contains(base as int));
        let front = order.take(k);
        assert(front.contains(base));
        let j = choose|j: int| 0 <= j < front.len() && front[j] == base;
        assert(order[j] == base);
        lemma_cycle_descends(dependencies, order, members, j);
    }
}

/// Every entry stands in the order.
proof fn lemma_order_covers(
    dependencies: Seq<ParallelValidationDependency>,
    order: Seq<usize>,
    i: int,
)
    requires
        topological(dependencies, order),
        0 <= i < dependencies.len(),
    ensures
        i <= usize::MAX,
        order.contains(i as usize),
{
    lemma_all_visited(order, dependencies.len() as int, i);
}

/// A list of distinct small numbers is no longer than their range, and if it is as long it holds
/// them all.
proof fn lemma_all_visited(visited: Seq<usize>, n: int, i: int)
    requires
        visited.no_duplicates(),
        forall|k: int| 0 <= k < visited.len() ==> #[trigger] visited[k] < n,
        n >= 0,
    ensures
        visited.len() <= n,
        visited.len() == n && 0 <= i < n ==> i <= usize::MAX && visited.contains(i as usize),
{
    let as_ints = visited.map_values(|v: usize| v as int);
    let range = vstd::set_lib::set_int_range(0, n);
    vstd::set_lib::lemma_int_range(0, n);
    assert(as_ints.no_duplicates()) by {
        assert forall|a: int, b: int|
            0 <= a < as_ints.len() && 0 <= b < as_ints.len() && a != b implies as_ints[a]
            != as_ints[b] by {
            assert(visited[a] != visited[b]);
        }
    }
    as_ints.unique_seq_to_set();
    assert(as_ints.to_set().subset_of(range)) by {
        assert forall|x: int| as_ints.to_set().contains(x) implies range.contains(x) by {
            let k = choose|k: int| 0 <= k < as_ints.len() && as_ints[k] == x;
            assert(visited[k] < n);
        }
    }
    vstd::set_lib::lemma_len_subset(as_ints.to_set(), range);
    if visited.len() == n && 0 <= i < n {
        vstd::set_lib::lemma_subset_equality(as_ints.to_set(), range);
        assert(range.contains(i));
        assert(as_ints.to_set().contains(i));
        let k = choose|k: int| 0 <= k < as_ints.len() && as_ints[k] == i;
        assert(visited[k] == i as usize);
    }
}

/// Entries that depend on `base`, in order, among the first `count`.
pub open spec fn dependents(
    dependencies: Seq<ParallelValidationDependency>,
    base: int,
    count: int,
) -> Seq<usize>
    decreases count,
{
    if count <= 0 {
        Seq::empty()
    } else {
        let before = dependents(dependencies, base, count - 1);
        if base_at(dependencies, count - 1) is Some && base_at(dependencies, count - 1)->0 == base {
            before.push((count - 1) as usize)
        } else {
            before
        }
    }
}

/// The dependents are exactly the entries with that base, and none is listed twice.
proof fn lemma_dependents(
    dependencies: Seq<ParallelValidationDependency>,
    base: int,
    count: int,
)
    requires
        0 <= count <= dependencies.len(),
        dependencies.len() <= usize::MAX,
    ensures
        forall|k: int|
            0 <= k < dependents(dependencies, base, count).len() ==> {
                let child = #[trigger] dependents(dependencies, base, count)[k] as int;
                child < count && base_at(dependencies, child) is Some && base_at(
                    dependencies,
                    child,
                )->0 == base
            },
        forall|i: int|
            0 <= i < count && (#[trigger] base_at(dependencies, i)) is Some && base_at(
                dependencies,
                i,
            )->0 == base ==> dependents(dependencies, base, count).contains(i as usize),
        dependents(dependencies, base, count).no_duplicates(),
    decreases count,
{
    if count > 0 {
        lemma_dependents(dependencies, base, count - 1);
        let before = dependents(dependencies, base, count - 1);
        let after = dependents(dependencies, base, count);
        if base_at(dependencies, count - 1) is Some && base_at(dependencies, count - 1)->0 == base {
            assert(after[before.len() as int] == (count - 1) as usize);
            assert forall|i: int|
                0 <= i < count && (#[trigger] base_at(dependencies, i)) is Some && base_at(
                    dependencies,
                    i,
                )->0 == base implies after.contains(i as usize) by {
                if i < count - 1 {
                    let k = choose|k: int| 0 <= k < before.len() && before[k] == i as usize;
                    assert(after[k] == i as usize);
                }
            }
            assert(after.no_duplicates()) by {
                assert forall|a: int, b: int|
                    0 <= a < after.len() && 0 <= b < after.len() && a != b implies after[a]
                    != after[b] by {
                    if a == before.len() {
                        assert(before[b] < count - 1);
                    } else if b == before.len() {
                        assert(before[a] < count - 1);
                    } else {
                        assert(before[a] != before[b]);
                    }
                }
            }
        }
    }
}

/// Resolved dependencies of an index.
#[derive(Debug)]
struct DependencyGraph {
    dependencies: Vec<ParallelValidationDependency>,
    children: Vec<Vec<usize>>,
}

impl DependencyGraph {
    spec fn wf(self, rows: Seq<PushPackIndexRow>) -> bool {
        let n = rows.len() as int;
        &&& graph_resolved(rows, self.dependencies@)
        &&& self.children@.len() == n
        &&& forall|i: int|
            0 <= i < n ==> (#[trigger] self.children@[i])@ == dependents(
                self.dependencies@,
                i,
                n,
            )
    }
}

/// The offsets and objects of the first rows are indexed.
spec fn rows_indexed(
    rows: Seq<PushPackIndexRow>,
    count: int,
    by_offset: Map<u64, usize>,
    by_oid: Map<ObjectId, u64>,
) -> bool {
    &&& forall|i: int|
        0 <= i < count ==> by_offset.contains_key((#[trigger] rows[i]).entry.offset)
            && by_offset[rows[i].entry.offset] == i
    &&& forall|i: int|
        0 <= i < count ==> by_oid.contains_key((#[trigger] rows[i]).oid) && by_oid[rows[i].oid]
            == i
    &&& forall|offset: u64| #[trigger]
        by_offset.contains_key(offset) ==> by_offset[offset] < count
            && rows[by_offset[offset] as int].entry.offset == offset
    &&& forall|oid: ObjectId| #[trigger]
        by_oid.contains_key(oid) ==> by_oid[oid] < count && rows[by_oid[oid] as int].oid == oid
}

/// Index the rows by offset and by object.
fn index_rows<C: PushPackValidationControl, W: ParallelValidationWork>(
    rows: &[PushPackIndexRow],
    control: &mut C,
    work: &mut W,
    checkpoints: &mut Checkpoints,
) -> (result: Result<(HashMap<u64, usize>, OidMap), ParallelValidationError>)
    requires
        old(checkpoints).known::<C>(),
    ensures
        final(checkpoints).known::<C>(),
        final(checkpoints).same_window(*old(checkpoints)),
        match result {
            Ok((by_offset, by_oid)) => rows_distinct(rows@) && rows_indexed(
                rows@,
                rows@.len() as int,
                by_offset@,
                by_oid@,
            ),
            Err(error) => interrupted::<C, W>(
                old(checkpoints).started_at,
                old(checkpoints).deadline,
                1,
                error,
            ) || (error == ParallelValidationError::MissingDependency && !rows_distinct(rows@)),
        },
        work_kept(
            old(work).allowance(),
            final(work).allowance(),
            result is Err && result->Err_0 == ParallelValidationError::WorkBudget,
            rows@.len() as int,
        ),
{
    let mut by_offset: HashMap<u64, usize> = HashMap::new();
    let mut by_oid = OidMap::new();
    let mut at: usize = 0;
    while at < rows.len()
        invariant
            checkpoints.known::<C>(),
            checkpoints.same_window(*old(checkpoints)),
            at <= rows@.len(),
            work_kept(old(work).allowance(), work.allowance(), false, at as int),
            rows_distinct(rows@.take(at as int)),
            rows_indexed(rows@, at as int, by_offset@, by_oid@),
        decreases rows.len() - at,
    {
        checkpoints.pass(control, work, 1)?;
        let row = rows[at];
        let known_offset = by_offset.contains_key(&row.entry.offset);
        let known_oid: bool = by_oid.contains(row.oid);
        if known_offset || known_oid {
            proof {
                if known_offset {
                    let j = by_offset@[row.entry.offset] as int;
                    assert(rows@[j].entry.offset == rows@[at as int].entry.offset);
                } else {
                    let j = by_oid@[row.oid] as int;
                    assert(rows@[j].oid == rows@[at as int].oid);
                }
                assert(!rows_distinct(rows@));
            }
            return Err(ParallelValidationError::MissingDependency);
        }
        let ghost offsets = by_offset@;
        let ghost oids = by_oid@;
        by_offset.insert(row.entry.offset, at);
        let _ = by_oid.insert_new(row.oid, at as u64);
        proof {
            let next = rows@.take(at + 1);
            assert forall|i: int, j: int|
                #![trigger next[i], next[j]]
                0 <= i < j < next.len() implies next[i].entry.offset != next[j].entry.offset
                && next[i].oid != next[j].oid by {
                let before = rows@.take(at as int);
                if j < at {
                    assert(before[i] == next[i] && before[j] == next[j]);
                } else {
                    assert(next[i] == rows@[i]);
                    assert(offsets.contains_key(rows@[i].entry.offset));
                    assert(oids.contains_key(rows@[i].oid));
                }
            }
        }
        at = at + 1;
    }
    assert(rows@.take(at as int) =~= rows@);
    Ok((by_offset, by_oid))
}

/// Resolve the dependency of one row.
fn resolve_row(
    rows: &[PushPackIndexRow],
    at: usize,
    by_offset: &HashMap<u64, usize>,
    by_oid: &OidMap,
) -> (result: Result<ParallelValidationDependency, ParallelValidationError>)
    requires
        at < rows@.len(),
        rows_indexed(rows@, rows@.len() as int, by_offset@, by_oid@),
    ensures
        match result {
            Ok(dependency) => dependency_fits(rows@, at as int, dependency),
            Err(error) => error == ParallelValidationError::MissingDependency && unresolvable(
                rows@,
                at as int,
            ),
        },
{
    let row = rows[at];
    match row.representation {
        PushPackEntryKind::Direct => Ok(ParallelValidationDependency::Direct),
        PushPackEntryKind::OfsDelta { base_offset, .. } => {
            if base_offset >= row.entry.offset {
                return Err(ParallelValidationError::MissingDependency);
            }
            match by_offset.get(&base_offset) {
                Some(base_index) => {
                    if *base_index >= at {
                        proof {
                            assert forall|dependency: ParallelValidationDependency|
                                !dependency_fits(rows@, at as int, dependency) by {
                                if dependency_fits(rows@, at as int, dependency) {
                                    let j = dependency->OfsDelta_base_index as int;
                                    assert(by_offset@[rows@[j].entry.offset] == j);
                                }
                            }
                        }
                        return Err(ParallelValidationError::MissingDependency);
                    }
                    Ok(ParallelValidationDependency::OfsDelta { base_index: *base_index })
                },
                None => {
                    proof {
                        assert forall|dependency: ParallelValidationDependency| !dependency_fits(
                            rows@,
                            at as int,
                            dependency,
                        ) by {
                            if dependency_fits(rows@, at as int, dependency) {
                                let j = dependency->OfsDelta_base_index as int;
                                assert(by_offset@.contains_key(rows@[j].entry.offset));
                            }
                        }
                    }
                    Err(ParallelValidationError::MissingDependency)
                },
            }
        },
        PushPackEntryKind::RefDelta { base_oid, external } => {
            match by_oid.get(base_oid) {
                Some(base_index) => {
                    if external {
                        assert(rows@[base_index as int].oid == base_oid);
                        return Err(ParallelValidationError::MissingDependency);
                    }
                    Ok(
                        ParallelValidationDependency::InternalRefDelta {
                            base_index: base_index as usize,
                        },
                    )
                },
                None => {
                    proof {
                        assert forall|j: int| 0 <= j < rows@.len() implies (#[trigger] rows@[j]).oid
                            != base_oid by {
                            assert(by_oid@.contains_key(rows@[j].oid));
                        }
                    }
                    if external {
                        return Ok(ParallelValidationDependency::ExternalRefDelta { base_oid });
                    }
                    Err(ParallelValidationError::MissingDependency)
                },
            }
        },
    }
}

/// Dependents among earlier entries do not change when an entry is added.
proof fn lemma_dependents_extend(
    dependencies: Seq<ParallelValidationDependency>,
    dependency: ParallelValidationDependency,
    base: int,
    count: int,
)
    requires
        count <= dependencies.len(),
    ensures
        dependents(dependencies.push(dependency), base, count) == dependents(
            dependencies,
            base,
            count,
        ),
    decreases count,
{
    if count > 0 {
        lemma_dependents_extend(dependencies, dependency, base, count - 1);
        assert(dependencies.push(dependency)[count - 1] == dependencies[count - 1]);
    }
}

/// Why a graph cannot be built.
pub open spec fn graph_fault<C: PushPackValidationControl, W: ParallelValidationWork>(
    rows: Seq<PushPackIndexRow>,
    started_at: Timestamp,
    deadline: Timestamp,
    error: ParallelValidationError,
) -> bool {
    ||| interrupted::<C, W>(started_at, deadline, 1, error)
    ||| error == ParallelValidationError::MissingDependency && (!rows_distinct(rows) || exists|i: int|
        #[trigger] unresolvable(rows, i))
    ||| error == ParallelValidationError::DependencyCycle && has_cycle(rows)
}

/// Resolve every dependency and check that the graph has no cycle.
fn build_dependency_graph<C: PushPackValidationControl, W: ParallelValidationWork>(
    rows: &[PushPackIndexRow],
    control: &mut C,
    work: &mut W,
    checkpoints: &mut Checkpoints,
) -> (result: Result<DependencyGraph, ParallelValidationError>)
    requires
        old(checkpoints).known::<C>(),
    ensures
        final(checkpoints).known::<C>(),
        final(checkpoints).same_window(*old(checkpoints)),
        match result {
            Ok(graph) => graph.wf(rows@) && rows_distinct(rows@) && acyclic(graph.dependencies@),
            Err(error) => graph_fault::<C, W>(
                rows@,
                old(checkpoints).started_at,
                old(checkpoints).deadline,
                error,
            ),
        },
        work_kept(
            old(work).allowance(),
            final(work).allowance(),
            result is Err && result->Err_0 == ParallelValidationError::WorkBudget,
            3 * rows@.len() as int,
        ),
{
    let (by_offset, by_oid) = index_rows(rows, control, work, checkpoints)?;
    let count: usize = rows.len();
    let mut dependencies: Vec<ParallelValidationDependency> = Vec::new();
    let mut children: Vec<Vec<usize>> = Vec::new();
    while children.len() < count
        invariant
            checkpoints.known::<C>(),
            checkpoints.same_window(*old(checkpoints)),
            children@.len() <= count,
            work_kept(old(work).allowance(), work.allowance(), false, rows@.len() as int),
            forall|i: int|
                0 <= i < children@.len() ==> (#[trigger] children@[i])@ == Seq::<usize>::empty(),
        decreases count - children.len(),
    {
        children.push(Vec::new());
    }
    let mut at: usize = 0;
    while at < count
        invariant
            checkpoints.known::<C>(),
            checkpoints.same_window(*old(checkpoints)),
            at <= count,
            work_kept(old(work).allowance(), work.allowance(), false, rows@.len() + at),
            count == rows@.len(),
            dependencies@.len() == at,
            children@.len() == count,
            rows_distinct(rows@),
            rows_indexed(rows@, count as int, by_offset@, by_oid@),
            prefix_resolved(rows@, dependencies@),
            forall|i: int|
                0 <= i < count ==> (#[trigger] children@[i])@ == dependents(
                    dependencies@,
                    i,
                    at as int,
                ),
        decreases count - at,
    {
        checkpoints.pass(control, work, 1)?;
        let dependency = match resolve_row(rows, at, &by_offset, &by_oid) {
            Ok(dependency) => dependency,
            Err(error) => {
                assert(unresolvable(rows@, at as int));
                return Err(error);
            },
        };
        let ghost before = dependencies@;
        let ghost lists = children@;
        dependencies.push(dependency);
        match dependency.base_index() {
            Some(base) => {
                assert(base < count);
                if base == at {
                    proof {
                        let members = Set::<int>::empty().insert(at as int);
                        assert(members.contains(at as int));
                        assert(prefix_resolved(rows@, dependencies@));
                        assert(is_cycle(dependencies@, members));
                    }
                    return Err(ParallelValidationError::DependencyCycle);
                }
                children[base].push(at);
            },
            None => {},
        }
        proof {
            assert(dependencies@ == before.push(dependency));
            assert forall|i: int| 0 <= i < count implies (#[trigger] children@[i])@ == dependents(
                dependencies@,
                i,
                at + 1,
            ) by {
                lemma_dependents_extend(before, dependency, i, at as int);
                assert(lists[i]@ == dependents(before, i, at as int));
            }
        }
        at = at + 1;
    }
    let graph = DependencyGraph { dependencies, children };
    check_order(&graph, rows, control, work, checkpoints)?;
    Ok(graph)
}

/// What holds between two steps of the order check.
spec fn ordering(
    dependencies: Seq<ParallelValidationDependency>,
    remaining: Seq<usize>,
    ready: Seq<usize>,
    visited: Seq<usize>,
) -> bool {
    let n = dependencies.len() as int;
    &&& remaining.len() == n
    &&& visited.no_duplicates()
    &&& ready.no_duplicates()
    &&& forall|k: int| 0 <= k < visited.len() ==> #[trigger] visited[k] < n
    &&& forall|k: int| 0 <= k < ready.len() ==> #[trigger] ready[k] < n
    &&& forall|k: int|
        0 <= k < visited.len() && base_at(dependencies, #[trigger] visited[k] as int) is Some
            ==> visited.take(k).contains(base_at(dependencies, visited[k] as int)->0)
    &&& forall|k: int| 0 <= k < ready.len() ==> !visited.contains(#[trigger] ready[k])
    &&& forall|i: int|
        #![trigger remaining[i]]
        0 <= i < n ==> entry_settled(dependencies, remaining, ready, visited, i)
}

/// An entry waits for its base exactly while the base is not visited.
spec fn entry_settled(
    dependencies: Seq<ParallelValidationDependency>,
    remaining: Seq<usize>,
    ready: Seq<usize>,
    visited: Seq<usize>,
    i: int,
) -> bool {
    let free = base_at(dependencies, i) is None || visited.contains(base_at(dependencies, i)->0);
    &&& remaining[i] == if free {
        0int
    } else {
        1
    }
    &&& free <==> visited.contains(i as usize) || ready.contains(i as usize)
}

/// Check that some order puts every entry behind its base.
fn check_order<C: PushPackValidationControl, W: ParallelValidationWork>(
    graph: &DependencyGraph,
    rows: &[PushPackIndexRow],
    control: &mut C,
    work: &mut W,
    checkpoints: &mut Checkpoints,
) -> (result: Result<(), ParallelValidationError>)
    requires
        graph.wf(rows@),
        old(checkpoints).known::<C>(),
    ensures
        final(checkpoints).known::<C>(),
        final(checkpoints).same_window(*old(checkpoints)),
        match result {
            Ok(()) => acyclic(graph.dependencies@),
            Err(error) => interrupted::<C, W>(
                old(checkpoints).started_at,
                old(checkpoints).deadline,
                1,
                error,
            ) || (error == ParallelValidationError::DependencyCycle && has_cycle(rows@)),
        },
        work_kept(
            old(work).allowance(),
            final(work).allowance(),
            result is Err && result->Err_0 == ParallelValidationError::WorkBudget,
            rows@.len() as int,
        ),
{
    let count: usize = rows.len();
    let ghost deps = graph.dependencies@;
    let mut remaining: Vec<usize> = Vec::new();
    let mut ready: Vec<usize> = Vec::new();
    let ghost mut visited: Seq<usize> = Seq::empty();
    let mut visited_count: usize = 0;
    let mut at: usize = 0;
    while at < count
        invariant
            checkpoints.known::<C>(),
            checkpoints.same_window(*old(checkpoints)),
            at <= count,
            work_kept(old(work).allowance(), work.allowance(), false, 0),
            count == rows@.len(),
            graph.wf(rows@),
            deps == graph.dependencies@,
            remaining@.len() == at,
            ready@.no_duplicates(),
            forall|k: int|
                0 <= k < ready@.len() ==> #[trigger] ready@[k] < at && base_at(
                    deps,
                    ready@[k] as int,
                ) is None,
            forall|i: int|
                #![trigger remaining@[i]]
                0 <= i < at ==> remaining@[i] == if base_at(deps, i) is None {
                    0int
                } else {
                    1
                } && (base_at(deps, i) is None ==> ready@.contains(i as usize)),
        decreases count - at,
    {
        let ghost before = ready@;
        match graph.dependencies[at].base_index() {
            Some(_) => {
                remaining.push(1);
            },
            None => {
                remaining.push(0);
                ready.push(at);
            },
        }
        proof {
            assert forall|i: int| 0 <= i < at && base_at(deps, i) is None implies #[trigger] ready@.contains(
                i as usize,
            ) by {
                assert(remaining@[i] == 0);
                assert(before.contains(i as usize));
                let k = choose|k: int| 0 <= k < before.len() && before[k] == i as usize;
                assert(ready@[k] == i as usize);
            }
            if base_at(deps, at as int) is None {
                assert(ready@[before.len() as int] == at);
            }
            assert(ready@.no_duplicates());
        }
        at = at + 1;
    }
    proof {
        assert(forall|x: usize| !visited.contains(x));
        assert forall|i: int|
            #![trigger remaining@[i]]
            0 <= i < count implies entry_settled(deps, remaining@, ready@, visited, i) by {
            if base_at(deps, i) is None {
                assert(remaining@[i] == 0);
                assert(ready@.contains(i as usize));
            } else {
                assert(remaining@[i] == 1);
                if ready@.contains(i as usize) {
                    let k = choose|k: int| 0 <= k < ready@.len() && ready@[k] == i as usize;
                    assert(base_at(deps, ready@[k] as int) is None);
                }
            }
        }
        assert(ordering(deps, remaining@, ready@, visited));
    }
    loop
        invariant
            checkpoints.known::<C>(),
            checkpoints.same_window(*old(checkpoints)),
            count == rows@.len(),
            graph.wf(rows@),
            deps == graph.dependencies@,
            ordering(deps, remaining@, ready@, visited),
            visited_count == visited.len(),
            visited.len() <= count,
            work_kept(old(work).allowance(), work.allowance(), false, visited.len() as int),
        decreases count - visited.len(),
    {
        let ghost waiting = ready@;
        let index: usize = match ready.pop() {
            Some(index) => index,
            None => {
                let ghost n = count as int;
                if visited_count == count {
                    assert(topological(deps, visited));
                    return Ok(());
                }
                proof {
                    let members = Set::new(
                        |i: int| 0 <= i < n && !visited.contains(i as usize),
                    );
                    lemma_some_unvisited(visited, n);
                    let stuck = choose|i: int| 0 <= i < n && !visited.contains(#[trigger] (i as usize));
                    assert(members.contains(stuck));
                    assert forall|i: int| #[trigger] members.contains(i) implies 0 <= i < deps.len()
                        && base_at(deps, i) is Some && members.contains(
                        base_at(deps, i)->0 as int,
                    ) by {
                        assert(remaining@[i] == 1);
                        assert(dependency_fits(rows@, i, deps[i]));
                    }
                    assert(is_cycle(deps, members));
                    assert(prefix_resolved(rows@, deps));
                }
                return Err(ParallelValidationError::DependencyCycle);
            },
        };
        proof {
            assert(waiting[waiting.len() - 1] == index);
            assert(ready@.push(index) =~= waiting);
            lemma_visit(deps, remaining@, waiting, visited, index);
            lemma_all_visited(visited.push(index), count as int, 0);
        }
        checkpoints.pass(control, work, 1)?;
        release_children(graph, rows, index, &mut remaining, &mut ready, Ghost(visited));
        proof {
            visited = visited.push(index);
        }
        visited_count = visited_count + 1;
    }
}

/// A list shorter than a range misses some number of it.
proof fn lemma_some_unvisited(visited: Seq<usize>, n: int)
    requires
        visited.no_duplicates(),
        visited.len() < n,
        n <= usize::MAX,
    ensures
        exists|i: int| 0 <= i < n && !visited.contains(#[trigger] (i as usize)),
{
    if forall|i: int| 0 <= i < n ==> visited.contains(#[trigger] (i as usize)) {
        let as_ints = visited.map_values(|v: usize| v as int);
        let range = vstd::set_lib::set_int_range(0, n);
        vstd::set_lib::lemma_int_range(0, n);
        as_ints.lemma_cardinality_of_set();
        assert(range.subset_of(as_ints.to_set())) by {
            assert forall|x: int| range.contains(x) implies as_ints.to_set().contains(x) by {
                assert(visited.contains(x as usize));
                let k = choose|k: int| 0 <= k < visited.len() && visited[k] == x as usize;
                assert(as_ints[k] == x);
            }
        }
        vstd::set_lib::lemma_len_subset(range, as_ints.to_set());
    }
}

/// Visiting an entry keeps what holds of visited entries.
proof fn lemma_visit(
    dependencies: Seq<ParallelValidationDependency>,
    remaining: Seq<usize>,
    ready: Seq<usize>,
    visited: Seq<usize>,
    index: usize,
)
    requires
        ordering(dependencies, remaining, ready, visited),
        ready.len() > 0,
        ready.last() == index,
    ensures
        !visited.contains(index),
        index < dependencies.len(),
        base_at(dependencies, index as int) is Some ==> visited.contains(
            base_at(dependencies, index as int)->0,
        ),
        visited.push(index).no_duplicates(),
        forall|k: int|
            0 <= k < visited.len() + 1 && base_at(
                dependencies,
                #[trigger] visited.push(index)[k] as int,
            ) is Some ==> visited.push(index).take(k).contains(
                base_at(dependencies, visited.push(index)[k] as int)->0,
            ),
{
    let last = ready.len() - 1;
    assert(!visited.contains(ready[last]));
    assert(ready.contains(index));
    assert(remaining[index as int] == 0 || remaining[index as int] == 1);
    let more = visited.push(index);
    assert(more.no_duplicates()) by {
        assert forall|a: int, b: int|
            0 <= a < more.len() && 0 <= b < more.len() && a != b implies more[a] != more[b] by {
            if a == visited.len() {
                assert(visited.contains(visited[b]));
            } else if b == visited.len() {
                assert(visited.contains(visited[a]));
            }
        }
    }
    assert forall|k: int|
        0 <= k < more.len() && base_at(
            dependencies,
            #[trigger] more[k] as int,
        ) is Some implies more.take(k).contains(base_at(dependencies, more[k] as int)->0) by {
        assert(more.take(k) =~= visited.take(k));
        if k < visited.len() {
            assert(more[k] == visited[k]);
        } else {
            assert(visited.take(k) =~= visited);
        }
    }
}

/// Make the entries that depended on a visited one ready.
fn release_children(
    graph: &DependencyGraph,
    rows: &[PushPackIndexRow],
    index: usize,
    remaining: &mut Vec<usize>,
    ready: &mut Vec<usize>,
    Ghost(visited): Ghost<Seq<usize>>,
)
    requires
        graph.wf(rows@),
        index < rows@.len(),
        !visited.contains(index),
        ordering(graph.dependencies@, old(remaining)@, old(ready)@.push(index), visited),
        visited.push(index).no_duplicates(),
        forall|k: int|
            0 <= k < visited.len() + 1 && base_at(
                graph.dependencies@,
                #[trigger] visited.push(index)[k] as int,
            ) is Some ==> visited.push(index).take(k).contains(
                base_at(graph.dependencies@, visited.push(index)[k] as int)->0,
            ),
    ensures
        ordering(graph.dependencies@, final(remaining)@, final(ready)@, visited.push(index)),
{
    let ghost deps = graph.dependencies@;
    let ghost n = deps.len() as int;
    let ghost first = ready@;
    let ghost counts = remaining@;
    let ghost kids = dependents(deps, index as int, n);
    let total: usize = rows.len();
    let length: usize = graph.children[index].len();
    proof {
        assert(total == n);
        assert(graph.children@[index as int]@ == kids);
        lemma_dependents(deps, index as int, n);
        assert(first.push(index).drop_last() =~= first);
        assert forall|k: int| 0 <= k < first.len() implies #[trigger] first[k] != index
            && !visited.contains(first[k]) && first[k] < n by {
            assert(first.push(index)[k] == first[k]);
            assert(first.push(index)[first.len() as int] == index);
        }
        assert(first.no_duplicates()) by {
            assert forall|a: int, b: int|
                0 <= a < first.len() && 0 <= b < first.len() && a != b implies first[a]
                != first[b] by {
                assert(first.push(index)[a] == first[a] && first.push(index)[b] == first[b]);
            }
        }
        assert forall|k: int| 0 <= k < kids.len() implies counts[#[trigger] kids[k] as int] == 1
            && !first.contains(kids[k]) by {
            let child = kids[k] as int;
            assert(base_at(deps, child) is Some && base_at(deps, child)->0 == index);
            assert(counts[child] == 1);
            if first.contains(kids[k]) {
                let j = choose|j: int| 0 <= j < first.len() && first[j] == kids[k];
                assert(first.push(index)[j] == kids[k]);
                assert(first.push(index).contains(child as usize));
            }
        }
    }
    let mut at: usize = 0;
    while at < length
        invariant
            at <= length,
            length == kids.len(),
            total == n,
            graph.wf(rows@),
            deps == graph.dependencies@,
            n == deps.len(),
            n == rows@.len(),
            index < n,
            graph.children@[index as int]@ == kids,
            kids == dependents(deps, index as int, n),
            kids.no_duplicates(),
            forall|k: int|
                0 <= k < kids.len() ==> #[trigger] kids[k] < n && base_at(deps, kids[k] as int)
                    is Some && base_at(deps, kids[k] as int)->0 == index,
            forall|k: int|
                0 <= k < kids.len() ==> counts[#[trigger] kids[k] as int] == 1 && !first.contains(
                    kids[k],
                ),
            counts.len() == n,
            remaining@.len() == n,
            forall|i: int|
                #![trigger remaining@[i]]
                0 <= i < n ==> remaining@[i] == if kids.take(at as int).contains(i as usize) {
                    0
                } else {
                    counts[i]
                },
            ready@ == first + kids.take(at as int),
        decreases length - at,
    {
        let child: usize = graph.children[index][at];
        let ghost before = remaining@;
        proof {
            assert(child == kids[at as int]);
            assert(!kids.take(at as int).contains(child)) by {
                if kids.take(at as int).contains(child) {
                    let k = choose|k: int| 0 <= k < at && kids.take(at as int)[k] == child;
                    assert(kids[k] == kids[at as int]);
                }
            }
            assert(before[child as int] == 1);
        }
        remaining.set(child, 0);
        ready.push(child);
        proof {
            assert(kids.take(at + 1) =~= kids.take(at as int).push(child));
            assert(ready@ =~= first + kids.take(at + 1));
            assert forall|i: int|
                #![trigger remaining@[i]]
                0 <= i < n implies remaining@[i] == if kids.take(at + 1).contains(i as usize) {
                0
            } else {
                counts[i]
            } by {
                let longer = kids.take(at + 1);
                let shorter = kids.take(at as int);
                assert(longer[at as int] == child);
                if shorter.contains(i as usize) {
                    let k = choose|k: int| 0 <= k < shorter.len() && shorter[k] == i as usize;
                    assert(longer[k] == i as usize);
                }
                if longer.contains(i as usize) && i != child {
                    let k = choose|k: int| 0 <= k < longer.len() && longer[k] == i as usize;
                    assert(shorter[k] == i as usize);
                }
                if i != child {
                    assert(remaining@[i] == before[i]);
                }
            }
        }
        at = at + 1;
    }
    proof {
        assert(kids.take(at as int) =~= kids);
        lemma_released(deps, counts, remaining@, first, kids, visited, index);
        assert(ready@ == first + kids);
    }
}

/// Once its dependents are ready, an entry counts as visited.
proof fn lemma_released(
    dependencies: Seq<ParallelValidationDependency>,
    counts: Seq<usize>,
    remaining: Seq<usize>,
    ready: Seq<usize>,
    kids: Seq<usize>,
    visited: Seq<usize>,
    index: usize,
)
    requires
        ordering(dependencies, counts, ready.push(index), visited),
        dependencies.len() <= usize::MAX,
        index < dependencies.len(),
        !visited.contains(index),
        visited.push(index).no_duplicates(),
        forall|k: int|
            0 <= k < visited.len() + 1 && base_at(
                dependencies,
                #[trigger] visited.push(index)[k] as int,
            ) is Some ==> visited.push(index).take(k).contains(
                base_at(dependencies, visited.push(index)[k] as int)->0,
            ),
        ready.no_duplicates(),
        forall|k: int|
            0 <= k < ready.len() ==> #[trigger] ready[k] != index && !visited.contains(ready[k])
                && ready[k] < dependencies.len(),
        kids == dependents(dependencies, index as int, dependencies.len() as int),
        forall|k: int| 0 <= k < kids.len() ==> !ready.contains(#[trigger] kids[k]),
        remaining.len() == dependencies.len(),
        forall|i: int|
            #![trigger remaining[i]]
            0 <= i < dependencies.len() ==> remaining[i] == if kids.contains(i as usize) {
                0
            } else {
                counts[i]
            },
    ensures
        ordering(dependencies, remaining, ready + kids, visited.push(index)),
{
    let n = dependencies.len() as int;
    let more = visited.push(index);
    let all = ready + kids;
    lemma_dependents(dependencies, index as int, n);
    assert forall|x: usize| more.contains(x) <==> visited.contains(x) || x == index by {
        if visited.contains(x) {
            let k = choose|k: int| 0 <= k < visited.len() && visited[k] == x;
            assert(more[k] == x);
        }
        assert(more[visited.len() as int] == index);
        if more.contains(x) && x != index {
            let k = choose|k: int| 0 <= k < more.len() && more[k] == x;
            assert(visited[k] == x);
        }
    }
    assert forall|x: usize| all.contains(x) <==> ready.contains(x) || kids.contains(x) by {
        if ready.contains(x) {
            let k = choose|k: int| 0 <= k < ready.len() && ready[k] == x;
            assert(all[k] == x);
        }
        if kids.contains(x) {
            let k = choose|k: int| 0 <= k < kids.len() && kids[k] == x;
            assert(all[ready.len() + k] == x);
        }
        if all.contains(x) {
            let k = choose|k: int| 0 <= k < all.len() && all[k] == x;
            if k < ready.len() {
                assert(ready[k] == x);
            } else {
                assert(kids[k - ready.len()] == x);
            }
        }
    }
    assert forall|x: usize| ready.push(index).contains(x) <==> ready.contains(x) || x == index by {
        let pushed = ready.push(index);
        assert(pushed[ready.len() as int] == index);
        if ready.contains(x) {
            let k = choose|k: int| 0 <= k < ready.len() && ready[k] == x;
            assert(pushed[k] == x);
        }
        if pushed.contains(x) && x != index {
            let k = choose|k: int| 0 <= k < pushed.len() && pushed[k] == x;
            assert(ready[k] == x);
        }
    }
    assert forall|k: int| 0 <= k < kids.len() implies !more.contains(#[trigger] kids[k]) && kids[k]
        < n by {
        let child = kids[k] as int;
        assert(base_at(dependencies, child) is Some && base_at(dependencies, child)->0 == index);
        assert(counts[child] == 1);
    }
    assert(all.no_duplicates()) by {
        assert forall|a: int, b: int|
            0 <= a < all.len() && 0 <= b < all.len() && a != b implies all[a] != all[b] by {
            if a < ready.len() && b < ready.len() {
                assert(ready[a] != ready[b]);
            } else if a >= ready.len() && b >= ready.len() {
                assert(kids[a - ready.len()] != kids[b - ready.len()]);
            } else if a < ready.len() {
                assert(all[a] == ready[a] && all[b] == kids[b - ready.len()]);
                assert(ready.contains(ready[a]));
            } else {
                assert(all[b] == ready[b] && all[a] == kids[a - ready.len()]);
                assert(ready.contains(ready[b]));
            }
        }
    }
    assert forall|k: int| 0 <= k < all.len() implies !more.contains(#[trigger] all[k]) && all[k]
        < n by {
        if k < ready.len() {
            assert(all[k] == ready[k]);
        } else {
            assert(all[k] == kids[k - ready.len()]);
        }
    }
    assert forall|k: int| 0 <= k < more.len() implies #[trigger] more[k] < n by {
        if k < visited.len() {
            assert(more[k] == visited[k]);
        }
    }
    assert forall|i: int|
        #![trigger remaining[i]]
        0 <= i < n implies entry_settled(dependencies, remaining, all, more, i) by {
        assert(counts[i] == 0 || counts[i] == 1);
        assert(entry_settled(dependencies, counts, ready.push(index), visited, i));
        if kids.contains(i as usize) {
            let k = choose|k: int| 0 <= k < kids.len() && kids[k] == i as usize;
            assert(base_at(dependencies, kids[k] as int)->0 == index);
        }
    }
}

/// Bounds of one wave.
#[derive(Clone, Copy, Debug, PartialEq, Eq, Structural)]
pub struct WaveBounds {
    /// Maximum tasks.
    pub worker_count: usize,
    /// Maximum external-base tasks.
    pub range_concurrency: usize,
    /// Aggregate bytes of tasks that share a wave.
    pub wave_bytes: u64,
    /// Bytes not taken by retained bases.
    pub available_bytes: u64,
}

/// A task must run alone: its cost is uncertain, or it exceeds what tasks may share.
pub open spec fn runs_alone(cost: ParallelValidationCost, wave_bytes: u64) -> bool {
    cost is Unknown || cost.charge() > wave_bytes
}

/// The wave that ready tasks from `at` on make up, once some are selected.
///
/// Tasks are taken in order while workers are left. A task that must run alone is taken only first,
/// and ends the wave; one that does not fit is passed over.
pub open spec fn wave_from(
    ready: Seq<(u64, usize)>,
    costs: Seq<ParallelValidationCost>,
    dependencies: Seq<ParallelValidationDependency>,
    bounds: WaveBounds,
    at: int,
    selected: Seq<usize>,
    admitted: int,
    ranges: int,
) -> Seq<usize>
    decreases ready.len() - at,
{
    if at < 0 || at >= ready.len() || selected.len() >= bounds.worker_count {
        selected
    } else {
        let index = ready[at].1;
        let charge = costs[index as int].charge();
        let external = dependencies[index as int] is ExternalRefDelta;
        if runs_alone(costs[index as int], bounds.wave_bytes) {
            if selected.len() > 0 {
                selected
            } else if charge <= bounds.available_bytes {
                seq![index]
            } else {
                wave_from(
                    ready,
                    costs,
                    dependencies,
                    bounds,
                    at + 1,
                    selected,
                    admitted,
                    ranges,
                )
            }
        } else if (external && ranges >= bounds.range_concurrency) || admitted + charge
            > bounds.wave_bytes || admitted + charge > bounds.available_bytes {
            wave_from(ready, costs, dependencies, bounds, at + 1, selected, admitted, ranges)
        } else {
            wave_from(
                ready,
                costs,
                dependencies,
                bounds,
                at + 1,
                selected.push(index),
                admitted + charge,
                ranges + if external {
                    1int
                } else {
                    0
                },
            )
        }
    }
}

/// The wave that the ready tasks make up.
pub open spec fn wave_of(
    ready: Seq<(u64, usize)>,
    costs: Seq<ParallelValidationCost>,
    dependencies: Seq<ParallelValidationDependency>,
    bounds: WaveBounds,
) -> Seq<usize> {
    wave_from(ready, costs, dependencies, bounds, 0, Seq::empty(), 0, 0)
}

/// Charge of a wave.
pub open spec fn wave_charge(selected: Seq<usize>, costs: Seq<ParallelValidationCost>) -> int
    decreases selected.len(),
{
    if selected.len() == 0 {
        0
    } else {
        wave_charge(selected.drop_last(), costs) + costs[selected.last() as int].charge()
    }
}

/// External-base tasks of a wave.
pub open spec fn wave_ranges(
    selected: Seq<usize>,
    dependencies: Seq<ParallelValidationDependency>,
) -> int
    decreases selected.len(),
{
    if selected.len() == 0 {
        0
    } else {
        wave_ranges(selected.drop_last(), dependencies) + if dependencies[selected.last() as int]
            is ExternalRefDelta {
            1int
        } else {
            0
        }
    }
}

/// A wave keeps its bounds, and a task that must run alone does.
pub open spec fn wave_fits(
    selected: Seq<usize>,
    costs: Seq<ParallelValidationCost>,
    dependencies: Seq<ParallelValidationDependency>,
    bounds: WaveBounds,
) -> bool {
    &&& selected.len() <= bounds.worker_count
    &&& wave_charge(selected, costs) <= bounds.available_bytes
    &&& wave_ranges(selected, dependencies) <= bounds.range_concurrency
    &&& (wave_charge(selected, costs) <= bounds.wave_bytes || selected.len() == 1)
    &&& forall|k: int|
        0 <= k < selected.len() && runs_alone(
            costs[#[trigger] selected[k] as int],
            bounds.wave_bytes,
        ) ==> selected.len() == 1
}

/// Every index in the list is ready from place `at` on or was selected before.
spec fn drawn_from(
    wave: Seq<usize>,
    selected: Seq<usize>,
    ready: Seq<(u64, usize)>,
) -> bool {
    forall|k: int|
        0 <= k < wave.len() ==> selected.contains(#[trigger] wave[k]) || ready_index(
            ready,
            wave[k],
        )
}

/// An index is ready.
pub open spec fn ready_index(ready: Seq<(u64, usize)>, index: usize) -> bool {
    exists|i: int| 0 <= i < ready.len() && (#[trigger] ready[i]).1 == index
}

/// Ready tasks are listed once, by offset and then by index.
pub open spec fn ready_sorted(ready: Seq<(u64, usize)>) -> bool {
    &&& forall|i: int, j: int|
        #![trigger ready[i], ready[j]]
        0 <= i < j < ready.len() ==> ready[i].0 < ready[j].0 || (ready[i].0 == ready[j].0
            && ready[i].1 < ready[j].1)
    &&& forall|i: int, j: int|
        #![trigger ready[i], ready[j]]
        0 <= i < j < ready.len() ==> ready[i].1 != ready[j].1
}

/// The wave keeps its bounds and draws on ready tasks, each once.
proof fn lemma_wave_from(
    ready: Seq<(u64, usize)>,
    costs: Seq<ParallelValidationCost>,
    dependencies: Seq<ParallelValidationDependency>,
    bounds: WaveBounds,
    at: int,
    selected: Seq<usize>,
    admitted: int,
    ranges: int,
)
    requires
        ready_sorted(ready),
        0 <= at <= ready.len(),
        bounds.worker_count > 0,
        bounds.range_concurrency > 0,
        selected.len() <= bounds.worker_count,
        admitted == wave_charge(selected, costs),
        ranges == wave_ranges(selected, dependencies),
        0 <= admitted <= bounds.wave_bytes,
        admitted <= bounds.available_bytes,
        ranges <= bounds.range_concurrency,
        selected.no_duplicates(),
        forall|k: int|
            0 <= k < selected.len() ==> !runs_alone(
                costs[#[trigger] selected[k] as int],
                bounds.wave_bytes,
            ),
        forall|k: int, j: int|
            #![trigger selected[k], ready[j]]
            0 <= k < selected.len() && at <= j < ready.len() ==> selected[k] != ready[j].1,
    ensures
        ({
            let wave = wave_from(
                ready,
                costs,
                dependencies,
                bounds,
                at,
                selected,
                admitted,
                ranges,
            );
            &&& wave_fits(wave, costs, dependencies, bounds)
            &&& wave.no_duplicates()
            &&& drawn_from(wave, selected, ready)
            &&& wave.len() >= selected.len()
            &&& forall|j: int|
                at <= j < ready.len() && costs[(#[trigger] ready[j]).1 as int].charge()
                    <= bounds.available_bytes ==> wave.len() > 0
        }),
    decreases ready.len() - at,
{
    let wave = wave_from(ready, costs, dependencies, bounds, at, selected, admitted, ranges);
    if at >= ready.len() || selected.len() >= bounds.worker_count {
        assert forall|k: int| 0 <= k < wave.len() implies selected.contains(#[trigger] wave[k])
            || ready_index(ready, wave[k]) by {
            assert(selected[k] == wave[k]);
        }
    } else {
        let index = ready[at].1;
        let charge = costs[index as int].charge();
        let external = dependencies[index as int] is ExternalRefDelta;
        assert(ready_index(ready, index));
        if runs_alone(costs[index as int], bounds.wave_bytes) {
            if selected.len() > 0 {
                assert forall|k: int| 0 <= k < wave.len() implies selected.contains(
                    #[trigger] wave[k],
                ) || ready_index(ready, wave[k]) by {
                    assert(selected[k] == wave[k]);
                }
            } else if charge <= bounds.available_bytes {
                assert(wave =~= seq![index]);
                assert(wave.drop_last() =~= Seq::<usize>::empty());
                reveal_with_fuel(wave_charge, 2);
                reveal_with_fuel(wave_ranges, 2);
            } else {
                lemma_wave_from(
                    ready,
                    costs,
                    dependencies,
                    bounds,
                    at + 1,
                    selected,
                    admitted,
                    ranges,
                );
            }
        } else if (external && ranges >= bounds.range_concurrency) || admitted + charge
            > bounds.wave_bytes || admitted + charge > bounds.available_bytes {
            lemma_wave_from(
                ready,
                costs,
                dependencies,
                bounds,
                at + 1,
                selected,
                admitted,
                ranges,
            );
            if selected.len() == 0 {
                assert(wave_charge(selected, costs) == 0);
                assert(wave_ranges(selected, dependencies) == 0);
            }
        } else {
            let more = selected.push(index);
            assert(more.drop_last() =~= selected);
            assert(charge >= 0);
            assert(more.no_duplicates()) by {
                assert forall|a: int, b: int|
                    0 <= a < more.len() && 0 <= b < more.len() && a != b implies more[a]
                    != more[b] by {
                    if a == selected.len() {
                        assert(selected[b] != ready[at].1);
                    } else if b == selected.len() {
                        assert(selected[a] != ready[at].1);
                    }
                }
            }
            assert forall|k: int, j: int|
                #![trigger more[k], ready[j]]
                0 <= k < more.len() && at + 1 <= j < ready.len() implies more[k] != ready[j].1 by {
                if k == selected.len() {
                    assert(ready[at].1 != ready[j].1);
                } else {
                    assert(selected[k] != ready[j].1);
                }
            }
            let next_ranges = ranges + if external {
                1int
            } else {
                0
            };
            lemma_wave_from(
                ready,
                costs,
                dependencies,
                bounds,
                at + 1,
                more,
                admitted + charge,
                next_ranges,
            );
            assert forall|k: int| 0 <= k < wave.len() implies selected.contains(#[trigger] wave[k])
                || ready_index(ready, wave[k]) by {
                if more.contains(wave[k]) && !ready_index(ready, wave[k]) {
                    let j = choose|j: int| 0 <= j < more.len() && more[j] == wave[k];
                    assert(selected[j] == wave[k]);
                }
            }
        }
    }
}

/// A wave keeps its bounds, draws on ready tasks each once, and is not empty if any ready task fits
/// beside the retained bases.
pub proof fn law_wave_keeps_bounds(
    ready: Seq<(u64, usize)>,
    costs: Seq<ParallelValidationCost>,
    dependencies: Seq<ParallelValidationDependency>,
    bounds: WaveBounds,
)
    requires
        ready_sorted(ready),
        bounds.worker_count > 0,
        bounds.range_concurrency > 0,
    ensures
        ({
            let wave = wave_of(ready, costs, dependencies, bounds);
            &&& wave_fits(wave, costs, dependencies, bounds)
            &&& wave.no_duplicates()
            &&& forall|k: int| 0 <= k < wave.len() ==> ready_index(ready, #[trigger] wave[k])
            &&& forall|j: int|
                0 <= j < ready.len() && costs[(#[trigger] ready[j]).1 as int].charge()
                    <= bounds.available_bytes ==> wave.len() > 0
        }),
{
    lemma_wave_from(ready, costs, dependencies, bounds, 0, Seq::empty(), 0, 0);
}

/// Select the tasks of the next wave.
pub fn select_wave(
    ready: &Vec<(u64, usize)>,
    costs: &[ParallelValidationCost],
    totals: &Vec<u64>,
    dependencies: &Vec<ParallelValidationDependency>,
    bounds: WaveBounds,
) -> (wave: Vec<usize>)
    requires
        2 * bounds.wave_bytes <= u64::MAX,
        totals@.len() == costs@.len(),
        dependencies@.len() == costs@.len(),
        forall|i: int|
            0 <= i < costs@.len() ==> (#[trigger] costs@[i]).charge() == totals@[i],
        forall|i: int| 0 <= i < ready@.len() ==> (#[trigger] ready@[i]).1 < costs@.len(),
    ensures
        wave@ == wave_of(ready@, costs@, dependencies@, bounds),
{
    let mut selected: Vec<usize> = Vec::new();
    let mut admitted: u64 = 0;
    let mut ranges: usize = 0;
    let mut at: usize = 0;
    while at < ready.len()
        invariant
            at <= ready@.len(),
            2 * bounds.wave_bytes <= u64::MAX,
            totals@.len() == costs@.len(),
            dependencies@.len() == costs@.len(),
            forall|i: int|
                0 <= i < costs@.len() ==> (#[trigger] costs@[i]).charge() == totals@[i],
            forall|i: int| 0 <= i < ready@.len() ==> (#[trigger] ready@[i]).1 < costs@.len(),
            admitted <= bounds.wave_bytes,
            ranges <= at,
            wave_of(ready@, costs@, dependencies@, bounds) == wave_from(
                ready@,
                costs@,
                dependencies@,
                bounds,
                at as int,
                selected@,
                admitted as int,
                ranges as int,
            ),
        decreases ready.len() - at,
    {
        if selected.len() >= bounds.worker_count {
            return selected;
        }
        let index: usize = ready[at].1;
        assert(costs@[index as int].charge() == totals@[index as int]);
        let charge: u64 = totals[index];
        let uncertain: bool = match costs[index] {
            ParallelValidationCost::Unknown { .. } => true,
            ParallelValidationCost::Known(_) => false,
        };
        if uncertain || charge > bounds.wave_bytes {
            if selected.len() > 0 {
                return selected;
            }
            if charge <= bounds.available_bytes {
                selected.push(index);
                assert(selected@ =~= seq![index]);
                return selected;
            }
        } else {
            let external: bool = dependencies[index].is_external();
            let next: u64 = admitted + charge;
            if !(external && ranges >= bounds.range_concurrency) && next <= bounds.wave_bytes
                && next <= bounds.available_bytes {
                selected.push(index);
                admitted = next;
                if external {
                    ranges = ranges + 1;
                }
            }
        }
        at = at + 1;
    }
    selected
}

/// A result is tagged with this index.
pub open spec fn result_for<B, M>(
    results: Seq<ParallelValidationTaskResult<B, M>>,
    index: usize,
) -> bool {
    exists|r: int| 0 <= r < results.len() && (#[trigger] results[r]).index == index
}

/// The indices that results are tagged with.
pub open spec fn tags<B, M>(results: Seq<ParallelValidationTaskResult<B, M>>) -> Seq<usize> {
    Seq::new(results.len(), |r: int| results[r].index)
}

/// Results answer the selected tasks, each as often as it was selected.
pub open spec fn results_match<B, M>(
    results: Seq<ParallelValidationTaskResult<B, M>>,
    selected: Seq<usize>,
) -> bool {
    tags(results).to_multiset() == selected.to_multiset()
}

/// Numbers do not descend.
spec fn ascending(list: Seq<usize>) -> bool {
    forall|i: int, j: int|
        #![trigger list[i], list[j]]
        0 <= i < j < list.len() ==> list[i] <= list[j]
}

/// Sort indices.
fn sort_indices(selected: &Vec<usize>) -> (sorted: Vec<usize>)
    ensures
        ascending(sorted@),
        sorted@.to_multiset() == selected@.to_multiset(),
{
    let mut sorted: Vec<usize> = Vec::new();
    let mut at: usize = 0;
    assert(selected@.take(0) =~= sorted@);
    while at < selected.len()
        invariant
            at <= selected@.len(),
            ascending(sorted@),
            sorted@.to_multiset() == selected@.take(at as int).to_multiset(),
        decreases selected.len() - at,
    {
        let index: usize = selected[at];
        let mut place: usize = 0;
        while place < sorted.len() && sorted[place] < index
            invariant
                place <= sorted@.len(),
                forall|i: int| 0 <= i < place ==> #[trigger] sorted@[i] < index,
            decreases sorted.len() - place,
        {
            place = place + 1;
        }
        let ghost before = sorted@;
        sorted.insert(place, index);
        proof {
            let front = selected@.take(at as int);
            assert(selected@.take(at + 1) =~= front.push(index));
            vstd::seq_lib::to_multiset_build(front, index);
            vstd::seq_lib::to_multiset_insert(before, place as int, index);
            assert forall|i: int, j: int|
                #![trigger sorted@[i], sorted@[j]]
                0 <= i < j < sorted@.len() implies sorted@[i] <= sorted@[j] by {
                if j > place {
                    assert(before[j - 1] == sorted@[j]);
                    assert(before[place as int] >= index);
                }
            }
        }
        at = at + 1;
    }
    assert(selected@.take(at as int) =~= selected@);
    sorted
}

/// Check that results answer the selected tasks, and put them in index order.
pub fn verify_results<B, M>(
    results: Vec<ParallelValidationTaskResult<B, M>>,
    selected: &Vec<usize>,
) -> (ordered: Result<Vec<ParallelValidationTaskResult<B, M>>, ParallelValidationError>)
    ensures
        match ordered {
            Ok(ordered) => {
                &&& results_match(results@, selected@)
                &&& ordered@.to_multiset() == results@.to_multiset()
                &&& forall|i: int, j: int|
                    #![trigger ordered@[i], ordered@[j]]
                    0 <= i < j < ordered@.len() ==> ordered@[i].index <= ordered@[j].index
            },
            Err(error) => error == ParallelValidationError::ExecutorContract && !results_match(
                results@,
                selected@,
            ),
        },
{
    proof {
        vstd::seq_lib::to_multiset_len(tags(results@));
        vstd::seq_lib::to_multiset_len(selected@);
    }
    if results.len() != selected.len() {
        return Err(ParallelValidationError::ExecutorContract);
    }
    let sorted = sort_indices(selected);
    let mut rest = results;
    let ghost all = rest@;
    let mut ordered: Vec<ParallelValidationTaskResult<B, M>> = Vec::new();
    let mut at: usize = 0;
    proof {
        vstd::seq_lib::to_multiset_len(sorted@);
        assert(sorted@.skip(0) =~= sorted@);
        lemma_no_results(ordered@);
        assert(all.to_multiset() =~= rest@.to_multiset().add(ordered@.to_multiset()));
    }
    while at < sorted.len()
        invariant
            at <= sorted@.len(),
            ordered@.len() == at,
            ascending(sorted@),
            sorted@.to_multiset() == selected@.to_multiset(),
            rest@.len() == sorted@.len() - at,
            all.to_multiset() == rest@.to_multiset().add(ordered@.to_multiset()),
            results_match(all, selected@) <==> tags(rest@).to_multiset() == sorted@.skip(
                at as int,
            ).to_multiset(),
            all == results@,
            forall|i: int| 0 <= i < at ==> (#[trigger] ordered@[i]).index == sorted@[i],
        decreases sorted.len() - at,
    {
        let index: usize = sorted[at];
        let mut place: usize = 0;
        while place < rest.len() && rest[place].index != index
            invariant
                place <= rest@.len(),
                forall|i: int| 0 <= i < place ==> (#[trigger] rest@[i]).index != index,
            decreases rest.len() - place,
        {
            place = place + 1;
        }
        let ghost pending = sorted@.skip(at as int);
        proof {
            assert(pending[0] == index);
            assert(pending.contains(index));
            vstd::seq_lib::to_multiset_contains(pending, index);
            vstd::seq_lib::to_multiset_contains(tags(rest@), index);
        }
        if place == rest.len() {
            proof {
                if tags(rest@).contains(index) {
                    let i = choose|i: int| 0 <= i < rest@.len() && tags(rest@)[i] == index;
                    assert(rest@[i].index == index);
                }
            }
            return Err(ParallelValidationError::ExecutorContract);
        }
        let ghost before = rest@;
        let ghost placed = ordered@;
        let taken = rest.remove(place);
        ordered.push(taken);
        proof {
            assert(before[place as int] == taken);
            assert(rest@ =~= before.remove(place as int));
            assert(tags(rest@) =~= tags(before).remove(place as int));
            assert(sorted@.skip(at + 1) =~= pending.remove(0));
            vstd::seq_lib::to_multiset_remove(before, place as int);
            vstd::seq_lib::to_multiset_remove(tags(before), place as int);
            vstd::seq_lib::to_multiset_remove(pending, 0);
            vstd::seq_lib::to_multiset_build(placed, taken);
            assert(before.contains(taken));
            vstd::seq_lib::to_multiset_contains(before, taken);
            assert(all.to_multiset() =~= rest@.to_multiset().add(ordered@.to_multiset()));
            assert(tags(before).contains(index)) by {
                assert(tags(before)[place as int] == index);
            }
            vstd::seq_lib::to_multiset_contains(tags(before), index);
            assert(tags(before).to_multiset().remove(index).insert(index)
                =~= tags(before).to_multiset());
            assert(pending.to_multiset().remove(index).insert(index) =~= pending.to_multiset());
        }
        at = at + 1;
    }
    proof {
        assert(tags(rest@) =~= sorted@.skip(at as int));
        lemma_no_results(rest@);
        assert(all.to_multiset() =~= ordered@.to_multiset());
    }
    Ok(ordered)
}

/// No results make up the empty multiset.
proof fn lemma_no_results<B, M>(results: Seq<ParallelValidationTaskResult<B, M>>)
    requires
        results.len() == 0,
    ensures
        results.to_multiset() == vstd::multiset::Multiset::<
            ParallelValidationTaskResult<B, M>,
        >::empty(),
{
    assert forall|x: ParallelValidationTaskResult<B, M>| #[trigger]
        results.to_multiset().count(x) == 0 by {
        vstd::seq_lib::to_multiset_contains(results, x);
    }
    assert(results.to_multiset() =~= vstd::multiset::Multiset::empty());
}

/// Where every task was selected once, results in index order answer each selected task, in
/// strictly ascending order.
proof fn lemma_verified<B, M>(
    results: Seq<ParallelValidationTaskResult<B, M>>,
    selected: Seq<usize>,
    ordered: Seq<ParallelValidationTaskResult<B, M>>,
)
    requires
        selected.no_duplicates(),
        results_match(results, selected),
        ordered.to_multiset() == results.to_multiset(),
        forall|i: int, j: int|
            #![trigger ordered[i], ordered[j]]
            0 <= i < j < ordered.len() ==> ordered[i].index <= ordered[j].index,
    ensures
        ordered.len() == selected.len(),
        forall|i: int, j: int|
            #![trigger ordered[i], ordered[j]]
            0 <= i < j < ordered.len() ==> ordered[i].index < ordered[j].index,
        forall|k: int|
            0 <= k < ordered.len() ==> results.contains(#[trigger] ordered[k])
                && selected.contains(ordered[k].index),
        forall|k: int| 0 <= k < selected.len() ==> result_for(ordered, #[trigger] selected[k]),
        forall|r: int| 0 <= r < results.len() ==> ordered.contains(#[trigger] results[r]),
{
    vstd::seq_lib::to_multiset_len(ordered);
    vstd::seq_lib::to_multiset_len(results);
    vstd::seq_lib::to_multiset_len(tags(results));
    vstd::seq_lib::to_multiset_len(selected);
    lemma_tags_agree(results, ordered);
    selected.lemma_multiset_has_no_duplicates();
    tags(ordered).lemma_multiset_has_no_duplicates_conv();
    assert forall|k: int| 0 <= k < ordered.len() implies results.contains(#[trigger] ordered[k])
        && selected.contains(ordered[k].index) by {
        assert(ordered.contains(ordered[k]));
        vstd::seq_lib::to_multiset_contains(ordered, ordered[k]);
        vstd::seq_lib::to_multiset_contains(results, ordered[k]);
        assert(tags(ordered)[k] == ordered[k].index);
        vstd::seq_lib::to_multiset_contains(tags(ordered), ordered[k].index);
        vstd::seq_lib::to_multiset_contains(selected, ordered[k].index);
    }
    assert forall|r: int| 0 <= r < results.len() implies ordered.contains(#[trigger] results[r]) by {
        assert(results.contains(results[r]));
        vstd::seq_lib::to_multiset_contains(ordered, results[r]);
        vstd::seq_lib::to_multiset_contains(results, results[r]);
    }
    assert forall|k: int| 0 <= k < selected.len() implies result_for(
        ordered,
        #[trigger] selected[k],
    ) by {
        assert(selected.contains(selected[k]));
        vstd::seq_lib::to_multiset_contains(selected, selected[k]);
        vstd::seq_lib::to_multiset_contains(tags(ordered), selected[k]);
        let i = choose|i: int| 0 <= i < tags(ordered).len() && tags(ordered)[i] == selected[k];
        assert(ordered[i].index == selected[k]);
    }
    assert forall|i: int, j: int|
        #![trigger ordered[i], ordered[j]]
        0 <= i < j < ordered.len() implies ordered[i].index < ordered[j].index by {
        assert(tags(ordered)[i] != tags(ordered)[j]);
    }
}

/// Results in another order carry the same tags.
proof fn lemma_tags_agree<B, M>(
    one: Seq<ParallelValidationTaskResult<B, M>>,
    other: Seq<ParallelValidationTaskResult<B, M>>,
)
    requires
        one.to_multiset() == other.to_multiset(),
    ensures
        tags(one).to_multiset() == tags(other).to_multiset(),
    decreases one.len(),
{
    vstd::seq_lib::to_multiset_len(one);
    vstd::seq_lib::to_multiset_len(other);
    if one.len() == 0 {
        assert(tags(one) =~= tags(other));
    } else {
        let last = one[0];
        assert(one.contains(last));
        vstd::seq_lib::to_multiset_contains(one, last);
        vstd::seq_lib::to_multiset_contains(other, last);
        let place = choose|i: int| 0 <= i < other.len() && other[i] == last;
        vstd::seq_lib::to_multiset_remove(one, 0);
        vstd::seq_lib::to_multiset_remove(other, place);
        lemma_tags_agree(one.remove(0), other.remove(place));
        assert(tags(one.remove(0)) =~= tags(one).remove(0));
        assert(tags(other.remove(place)) =~= tags(other).remove(place));
        vstd::seq_lib::to_multiset_remove(tags(one), 0);
        vstd::seq_lib::to_multiset_remove(tags(other), place);
        assert(tags(one)[0] == last.index);
        assert(tags(other)[place] == last.index);
        assert(tags(one).contains(last.index));
        assert(tags(other).contains(last.index));
        vstd::seq_lib::to_multiset_contains(tags(one), last.index);
        vstd::seq_lib::to_multiset_contains(tags(other), last.index);
        assert(tags(one).to_multiset() =~= tags(one).to_multiset().remove(last.index).insert(
            last.index,
        ));
        assert(tags(other).to_multiset() =~= tags(other).to_multiset().remove(last.index).insert(
            last.index,
        ));
    }
}

/// The lowest rejected index among results, with its failure.
pub open spec fn lowest_rejection<B, M>(
    results: Seq<ParallelValidationTaskResult<B, M>>,
    index: usize,
    failure: ParallelValidationTaskFailure,
) -> bool {
    &&& exists|r: int|
        0 <= r < results.len() && (#[trigger] results[r]).index == index && results[r].result
            == Err::<ParallelValidationTaskOutput<B, M>, ParallelValidationTaskFailure>(failure)
    &&& forall|r: int|
        0 <= r < results.len() && (#[trigger] results[r]).result is Err ==> index
            <= results[r].index
}

/// Return the first rejection among ordered results.
fn first_rejection<B, M>(ordered: &Vec<ParallelValidationTaskResult<B, M>>) -> (rejection: Option<
    (usize, ParallelValidationTaskFailure),
>)
    requires
        forall|i: int, j: int|
            #![trigger ordered@[i], ordered@[j]]
            0 <= i < j < ordered@.len() ==> ordered@[i].index < ordered@[j].index,
    ensures
        match rejection {
            Some((index, failure)) => lowest_rejection(ordered@, index, failure),
            None => forall|r: int| 0 <= r < ordered@.len() ==> (#[trigger] ordered@[r]).result is Ok,
        },
{
    let mut at: usize = 0;
    while at < ordered.len()
        invariant
            at <= ordered@.len(),
            forall|i: int, j: int|
                #![trigger ordered@[i], ordered@[j]]
                0 <= i < j < ordered@.len() ==> ordered@[i].index < ordered@[j].index,
            forall|r: int| 0 <= r < at ==> (#[trigger] ordered@[r]).result is Ok,
        decreases ordered.len() - at,
    {
        if let Err(failure) = &ordered[at].result {
            let failure: ParallelValidationTaskFailure = *failure;
            assert(ordered@[at as int].index == ordered@[at as int].index);
            return Some((ordered[at].index, failure));
        }
        at = at + 1;
    }
    None
}

/// Put an entry among the ready ones.
fn insert_ready(ready: &mut Vec<(u64, usize)>, offset: u64, index: usize)
    requires
        ready_sorted(old(ready)@),
        !ready_index(old(ready)@, index),
    ensures
        ready_sorted(final(ready)@),
        forall|x: usize| #[trigger]
            ready_index(final(ready)@, x) <==> ready_index(old(ready)@, x) || x == index,
        forall|i: int|
            0 <= i < final(ready)@.len() ==> #[trigger] final(ready)@[i] == (offset, index)
                || old(ready)@.contains(final(ready)@[i]),
{
    let ghost before = ready@;
    let mut place: usize = 0;
    while place < ready.len() && (ready[place].0 < offset || (ready[place].0 == offset
        && ready[place].1 < index))
        invariant
            place <= ready@.len(),
            ready@ == before,
            forall|i: int|
                0 <= i < place ==> (#[trigger] ready@[i]).0 < offset || (ready@[i].0 == offset
                    && ready@[i].1 < index),
        decreases ready.len() - place,
    {
        place = place + 1;
    }
    ready.insert(place, (offset, index));
    proof {
        let after = ready@;
        assert forall|i: int| 0 <= i < after.len() implies #[trigger] after[i] == (offset, index)
            || before.contains(after[i]) by {
            if i < place {
                assert(before[i] == after[i]);
            } else if i > place {
                assert(before[i - 1] == after[i]);
            }
        }
        assert forall|x: usize| #[trigger]
            ready_index(after, x) <==> ready_index(before, x) || x == index by {
            if ready_index(after, x) {
                let i = choose|i: int| 0 <= i < after.len() && (#[trigger] after[i]).1 == x;
                if i < place {
                    assert(before[i].1 == x);
                } else if i > place {
                    assert(before[i - 1].1 == x);
                }
            }
            if ready_index(before, x) {
                let i = choose|i: int| 0 <= i < before.len() && (#[trigger] before[i]).1 == x;
                if i < place {
                    assert(after[i].1 == x);
                } else {
                    assert(after[i + 1].1 == x);
                }
            }
            if x == index {
                assert(after[place as int].1 == x);
            }
        }
        assert forall|i: int, j: int|
            #![trigger after[i], after[j]]
            0 <= i < j < after.len() implies (after[i].0 < after[j].0 || (after[i].0 == after[j].0
            && after[i].1 < after[j].1)) && after[i].1 != after[j].1 by {
            let a = if i < place { i } else { i - 1 };
            let b = if j < place { j } else { j - 1 };
            if i == place {
                assert(before[b] == after[j]);
                assert(before[b].1 != index);
                assert(before[place as int].0 >= offset);
            } else if j == place {
                assert(before[a] == after[i]);
                assert(before[a].1 != index);
            } else {
                assert(before[a] == after[i] && before[b] == after[j]);
            }
        }
    }
}

/// Take the selected entries out of the ready ones.
fn drop_selected(ready: &Vec<(u64, usize)>, selected: &Vec<usize>) -> (kept: Vec<(u64, usize)>)
    requires
        ready_sorted(ready@),
    ensures
        ready_sorted(kept@),
        forall|i: int| 0 <= i < kept@.len() ==> ready@.contains(#[trigger] kept@[i]),
        forall|x: usize| #[trigger]
            ready_index(kept@, x) <==> ready_index(ready@, x) && !selected@.contains(x),
{
    let mut kept: Vec<(u64, usize)> = Vec::new();
    let mut at: usize = 0;
    while at < ready.len()
        invariant
            at <= ready@.len(),
            ready_sorted(ready@),
            ready_sorted(kept@),
            forall|i: int|
                0 <= i < kept@.len() ==> ready@.take(at as int).contains(#[trigger] kept@[i])
                    && !selected@.contains(kept@[i].1),
            forall|x: usize| #[trigger]
                ready_index(kept@, x) <==> ready_index(ready@.take(at as int), x)
                    && !selected@.contains(x),
        decreases ready.len() - at,
    {
        let item: (u64, usize) = ready[at];
        let chosen: bool = contains_index(selected, item.1);
        let ghost before = kept@;
        let ghost front = ready@.take(at as int);
        let ghost more = ready@.take(at + 1);
        if !chosen {
            kept.push(item);
        }
        proof {
            assert(more =~= front.push(item));
            assert forall|i: int| 0 <= i < kept@.len() implies more.contains(#[trigger] kept@[i])
                && !selected@.contains(kept@[i].1) by {
                if i < before.len() {
                    assert(before[i] == kept@[i]);
                    let j = choose|j: int| 0 <= j < front.len() && front[j] == before[i];
                    assert(more[j] == kept@[i]);
                } else {
                    assert(more[at as int] == item);
                }
            }
            assert forall|x: usize| #[trigger]
                ready_index(kept@, x) <==> ready_index(more, x) && !selected@.contains(x) by {
                if ready_index(kept@, x) {
                    let i = choose|i: int| 0 <= i < kept@.len() && (#[trigger] kept@[i]).1 == x;
                    assert(more.contains(kept@[i]));
                    let j = choose|j: int| 0 <= j < more.len() && more[j] == kept@[i];
                    assert(more[j].1 == x);
                }
                if ready_index(more, x) && !selected@.contains(x) {
                    let j = choose|j: int| 0 <= j < more.len() && (#[trigger] more[j]).1 == x;
                    if j < at {
                        assert(front[j].1 == x);
                        assert(ready_index(front, x));
                        assert(ready_index(before, x));
                        let i = choose|i: int|
                            0 <= i < before.len() && (#[trigger] before[i]).1 == x;
                        assert(kept@[i].1 == x);
                    } else {
                        assert(kept@[before.len() as int].1 == x);
                    }
                }
            }
            if !chosen {
                assert forall|i: int, j: int|
                    #![trigger kept@[i], kept@[j]]
                    0 <= i < j < kept@.len() implies (kept@[i].0 < kept@[j].0 || (kept@[i].0
                    == kept@[j].0 && kept@[i].1 < kept@[j].1)) && kept@[i].1 != kept@[j].1 by {
                    if j == before.len() {
                        assert(before[i] == kept@[i]);
                        let a = choose|a: int| 0 <= a < front.len() && front[a] == before[i];
                        assert(ready@[a] == kept@[i]);
                        assert(ready@[at as int] == kept@[j]);
                    } else {
                        assert(before[i] == kept@[i] && before[j] == kept@[j]);
                    }
                }
            }
        }
        at = at + 1;
    }
    assert(ready@.take(at as int) =~= ready@);
    kept
}

/// Return whether an index is listed.
fn contains_index(list: &Vec<usize>, index: usize) -> (found: bool)
    ensures
        found == list@.contains(index),
{
    let mut at: usize = 0;
    while at < list.len()
        invariant
            at <= list@.len(),
            forall|i: int| 0 <= i < at ==> #[trigger] list@[i] != index,
        decreases list.len() - at,
    {
        if list[at] == index {
            assert(list@[at as int] == index);
            return true;
        }
        at = at + 1;
    }
    false
}

/// Indices of the tasks of a wave.
pub open spec fn wave_indices<B>(tasks: Seq<ParallelValidationTask<B>>) -> Seq<usize> {
    tasks.map_values(|task: ParallelValidationTask<B>| task.index)
}

/// Indices of all tasks handed over, wave by wave.
pub open spec fn handed_indices<B>(waves: Seq<Seq<ParallelValidationTask<B>>>) -> Seq<usize>
    decreases waves.len(),
{
    if waves.len() == 0 {
        Seq::empty()
    } else {
        handed_indices(waves.drop_last()) + wave_indices(waves.last())
    }
}

/// A task for this index was handed over, with this depth.
pub open spec fn depth_handed<B>(
    waves: Seq<Seq<ParallelValidationTask<B>>>,
    index: usize,
    depth: int,
) -> bool {
    exists|w: int, k: int|
        0 <= w < waves.len() && 0 <= k < waves[w].len() && (#[trigger] waves[w][k]).index == index
            && waves[w][k].expected_delta_depth == depth
}

/// A task states its entry, and its base was validated in an earlier wave.
pub open spec fn task_sound<B>(
    earlier: Seq<Seq<ParallelValidationTask<B>>>,
    task: ParallelValidationTask<B>,
    rows: Seq<PushPackIndexRow>,
    dependencies: Seq<ParallelValidationDependency>,
    costs: Seq<ParallelValidationCost>,
    limits: ParallelValidationLimits,
) -> bool {
    &&& task.index < rows.len()
    &&& task.row == rows[task.index as int]
    &&& task.dependency == dependencies[task.index as int]
    &&& task.byte_limit == costs[task.index as int].charge()
    &&& task.expected_delta_depth <= limits.receive.max_delta_depth
    &&& match task.dependency.spec_base() {
        Some(base) => {
            &&& task.base is Some
            &&& handed_indices(earlier).contains(base)
            &&& depth_handed(earlier, base, task.expected_delta_depth - 1)
        },
        None => {
            &&& task.base is None
            &&& task.expected_delta_depth == if task.dependency is Direct {
                0int
            } else {
                1
            }
        },
    }
}

/// Bounds of every wave of a run.
pub open spec fn run_bounds(limits: ParallelValidationLimits) -> WaveBounds {
    WaveBounds {
        worker_count: limits.worker_count,
        range_concurrency: limits.range_concurrency,
        wave_bytes: limits.wave_bytes,
        available_bytes: limits.receive.bytes_in_flight,
    }
}

/// A wave keeps its bounds, and its tasks are sound.
pub open spec fn wave_sound<B>(
    earlier: Seq<Seq<ParallelValidationTask<B>>>,
    tasks: Seq<ParallelValidationTask<B>>,
    rows: Seq<PushPackIndexRow>,
    dependencies: Seq<ParallelValidationDependency>,
    costs: Seq<ParallelValidationCost>,
    limits: ParallelValidationLimits,
) -> bool {
    &&& tasks.len() > 0
    &&& wave_fits(wave_indices(tasks), costs, dependencies, run_bounds(limits))
    &&& forall|k: int|
        0 <= k < tasks.len() ==> task_sound(
            earlier,
            #[trigger] tasks[k],
            rows,
            dependencies,
            costs,
            limits,
        )
}

/// Every wave is sound, and no entry is handed over twice.
pub open spec fn waves_sound<B>(
    waves: Seq<Seq<ParallelValidationTask<B>>>,
    rows: Seq<PushPackIndexRow>,
    dependencies: Seq<ParallelValidationDependency>,
    costs: Seq<ParallelValidationCost>,
    limits: ParallelValidationLimits,
) -> bool {
    &&& handed_indices(waves).no_duplicates()
    &&& forall|w: int|
        0 <= w < waves.len() ==> wave_sound(
            waves.take(w),
            #[trigger] waves[w],
            rows,
            dependencies,
            costs,
            limits,
        )
}

/// The waves are sound for the dependencies that the rows name.
pub open spec fn schedule_sound<B>(
    waves: Seq<Seq<ParallelValidationTask<B>>>,
    rows: Seq<PushPackIndexRow>,
    costs: Seq<ParallelValidationCost>,
    limits: ParallelValidationLimits,
) -> bool {
    waves.len() == 0 || exists|dependencies: Seq<ParallelValidationDependency>|
        graph_resolved(rows, dependencies) && #[trigger] waves_sound(
            waves,
            rows,
            dependencies,
            costs,
            limits,
        )
}

/// The entry's output was returned with this metadata.
pub open spec fn output_returned<B, M>(
    results: Seq<Seq<ParallelValidationTaskResult<B, M>>>,
    index: int,
    metadata: M,
) -> bool {
    exists|w: int, k: int|
        0 <= w < results.len() && 0 <= k < results[w].len() && (#[trigger] results[w][k]).index
            == index && results[w][k].result is Ok && results[w][k].result->Ok_0.metadata
            == metadata
}

/// One more sound wave keeps the run sound.
proof fn lemma_wave_added<B>(
    waves: Seq<Seq<ParallelValidationTask<B>>>,
    tasks: Seq<ParallelValidationTask<B>>,
    rows: Seq<PushPackIndexRow>,
    dependencies: Seq<ParallelValidationDependency>,
    costs: Seq<ParallelValidationCost>,
    limits: ParallelValidationLimits,
)
    requires
        waves_sound(waves, rows, dependencies, costs, limits),
        wave_sound(waves, tasks, rows, dependencies, costs, limits),
        wave_indices(tasks).no_duplicates(),
        forall|k: int|
            0 <= k < tasks.len() ==> !handed_indices(waves).contains(#[trigger] tasks[k].index),
    ensures
        waves_sound(waves.push(tasks), rows, dependencies, costs, limits),
        handed_indices(waves.push(tasks)) == handed_indices(waves) + wave_indices(tasks),
{
    let more = waves.push(tasks);
    assert(more.drop_last() =~= waves);
    assert forall|w: int| 0 <= w < more.len() implies wave_sound(
        more.take(w),
        #[trigger] more[w],
        rows,
        dependencies,
        costs,
        limits,
    ) by {
        if w < waves.len() {
            assert(more.take(w) =~= waves.take(w));
            assert(more[w] == waves[w]);
        } else {
            assert(more.take(w) =~= waves);
        }
    }
    let before = handed_indices(waves);
    let fresh = wave_indices(tasks);
    let all = before + fresh;
    assert forall|a: int, b: int| 0 <= a < all.len() && 0 <= b < all.len() && a != b implies all[a]
        != all[b] by {
        if a < before.len() && b >= before.len() {
            assert(all[b] == tasks[b - before.len()].index);
            assert(before.contains(before[a]));
        } else if a >= before.len() && b < before.len() {
            assert(all[a] == tasks[a - before.len()].index);
            assert(before.contains(before[b]));
        } else if a >= before.len() {
            assert(fresh[a - before.len()] != fresh[b - before.len()]);
        }
    }
}

/// State of one run.
struct Schedule<B, M> {
    ready: Vec<(u64, usize)>,
    metadata: Vec<Option<M>>,
    depths: Vec<Option<u32>>,
    cache: Vec<Option<CachedBase<B>>>,
    cache_bytes: u64,
    peak_cache_bytes: u64,
}

/// An entry may run: it has not run, and its base has.
spec fn runnable<M>(
    metadata: Seq<Option<M>>,
    dependencies: Seq<ParallelValidationDependency>,
    i: int,
) -> bool {
    &&& metadata[i] is None
    &&& match base_at(dependencies, i) {
        Some(base) => metadata[base as int] is Some,
        None => true,
    }
}

/// Entries with this base that have not run, among the first `count`.
spec fn unrun<M>(
    dependencies: Seq<ParallelValidationDependency>,
    metadata: Seq<Option<M>>,
    base: int,
    count: int,
) -> int
    decreases count,
{
    if count <= 0 {
        0
    } else {
        unrun(dependencies, metadata, base, count - 1) + if base_at(dependencies, count - 1) is Some
            && base_at(dependencies, count - 1)->0 == base && metadata[count - 1] is None {
            1int
        } else {
            0
        }
    }
}

/// Running an entry leaves its base one fewer to wait for, and any other as many.
proof fn lemma_unrun_step<M>(
    dependencies: Seq<ParallelValidationDependency>,
    before: Seq<Option<M>>,
    after: Seq<Option<M>>,
    index: int,
    base: int,
    count: int,
)
    requires
        0 <= index,
        before[index] is None,
        after[index] is Some,
        forall|j: int| 0 <= j < count && j != index ==> (#[trigger] after[j]) == before[j],
    ensures
        unrun(dependencies, after, base, count) == unrun(dependencies, before, base, count)
            - if index < count && base_at(dependencies, index) is Some && base_at(
            dependencies,
            index,
        )->0 == base {
            1int
        } else {
            0
        },
    decreases count,
{
    if count > 0 {
        lemma_unrun_step(dependencies, before, after, index, base, count - 1);
        if count - 1 != index {
            assert(after[count - 1] == before[count - 1]);
        }
    }
}

/// While none of its dependents has run, a base waits for all of them.
proof fn lemma_unrun_all<M>(
    dependencies: Seq<ParallelValidationDependency>,
    metadata: Seq<Option<M>>,
    base: int,
    count: int,
)
    requires
        forall|j: int|
            0 <= j < count && (#[trigger] base_at(dependencies, j)) is Some && base_at(
                dependencies,
                j,
            )->0 == base ==> metadata[j] is None,
    ensures
        unrun(dependencies, metadata, base, count) == dependents(dependencies, base, count).len(),
    decreases count,
{
    if count > 0 {
        lemma_unrun_all(dependencies, metadata, base, count - 1);
        assert(base_at(dependencies, count - 1) is Some && base_at(dependencies, count - 1)->0
            == base ==> metadata[count - 1] is None);
    }
}

/// A base waits exactly while some entry needs it that has not run.
proof fn lemma_unrun_some<M>(
    dependencies: Seq<ParallelValidationDependency>,
    metadata: Seq<Option<M>>,
    base: int,
    count: int,
)
    ensures
        unrun(dependencies, metadata, base, count) >= 0,
        unrun(dependencies, metadata, base, count) > 0 <==> exists|j: int|
            0 <= j < count && (#[trigger] base_at(dependencies, j)) is Some && base_at(
                dependencies,
                j,
            )->0 == base && metadata[j] is None,
    decreases count,
{
    if count > 0 {
        lemma_unrun_some(dependencies, metadata, base, count - 1);
        if base_at(dependencies, count - 1) is Some && base_at(dependencies, count - 1)->0 == base
            && metadata[count - 1] is None {
            assert(base_at(dependencies, count - 1)->0 == base);
        }
    }
}

/// Bytes that a slot of the cache holds.
spec fn slot_bytes<B>(slot: Option<CachedBase<B>>) -> int {
    match slot {
        Some(cached) => cached.bytes as int,
        None => 0,
    }
}

/// Bytes that the first slots of the cache hold.
spec fn cache_sum<B>(cache: Seq<Option<CachedBase<B>>>, count: int) -> int
    decreases count,
{
    if count <= 0 {
        0
    } else {
        cache_sum(cache, count - 1) + slot_bytes(cache[count - 1])
    }
}

/// The first slots hold the same in both.
proof fn lemma_cache_prefix<B>(
    before: Seq<Option<CachedBase<B>>>,
    after: Seq<Option<CachedBase<B>>>,
    count: int,
)
    requires
        forall|i: int| 0 <= i < count ==> (#[trigger] after[i]) == before[i],
    ensures
        cache_sum(after, count) == cache_sum(before, count),
    decreases count,
{
    if count > 0 {
        lemma_cache_prefix(before, after, count - 1);
        assert(after[count - 1] == before[count - 1]);
    }
}

/// Changing one slot changes the sum by as much.
proof fn lemma_cache_update<B>(
    cache: Seq<Option<CachedBase<B>>>,
    index: int,
    slot: Option<CachedBase<B>>,
    count: int,
)
    requires
        0 <= index < cache.len(),
        0 <= count <= cache.len(),
    ensures
        cache_sum(cache.update(index, slot), count) == cache_sum(cache, count) + if index < count {
            slot_bytes(slot) - slot_bytes(cache[index])
        } else {
            0
        },
        cache_sum(cache, count) >= if index < count {
            slot_bytes(cache[index])
        } else {
            0
        },
    decreases count,
{
    if count > 0 {
        lemma_cache_update(cache, index, slot, count - 1);
    }
}

/// The cache holds the bases that have run and are waited for, and counts who waits.
spec fn cache_sound<B, M>(
    cache: Seq<Option<CachedBase<B>>>,
    cache_bytes: u64,
    dependencies: Seq<ParallelValidationDependency>,
    ran: Set<int>,
    metadata: Seq<Option<M>>,
) -> bool {
    &&& cache_bytes == cache_sum(cache, cache.len() as int)
    &&& cache.len() == metadata.len()
    &&& forall|i: int|
        0 <= i < cache.len() ==> slot_waits(
            #[trigger] cache[i],
            ran.contains(i),
            unrun(dependencies, metadata, i, cache.len() as int),
        )
}

/// A slot holds a base that has run and that so many entries wait for.
spec fn slot_waits<B>(slot: Option<CachedBase<B>>, ran: bool, waiting: int) -> bool {
    match slot {
        Some(cached) => ran && waiting > 0 && cached.remaining_dependents == waiting,
        None => !ran || waiting == 0,
    }
}

/// The entries that have run.
spec fn ran_set<M>(metadata: Seq<Option<M>>) -> Set<int> {
    Set::new(|i: int| 0 <= i < metadata.len() && metadata[i] is Some)
}

/// Every slot of the one cache holds what the other holds there.
spec fn slots_kept<B>(
    before: Seq<Option<CachedBase<B>>>,
    after: Seq<Option<CachedBase<B>>>,
) -> bool {
    forall|i: int|
        0 <= i < after.len() && (#[trigger] after[i]) is Some ==> before[i] is Some
            && before[i]->0.bytes == after[i]->0.bytes
}

/// Running an entry and releasing its base keeps the cache sound.
proof fn lemma_cache_release<B, M>(
    before: Seq<Option<CachedBase<B>>>,
    after: Seq<Option<CachedBase<B>>>,
    bytes: u64,
    bytes_after: u64,
    dependencies: Seq<ParallelValidationDependency>,
    ran: Set<int>,
    metadata: Seq<Option<M>>,
    metadata_after: Seq<Option<M>>,
    index: int,
)
    requires
        cache_sound(before, bytes, dependencies, ran, metadata),
        0 <= index < metadata.len(),
        metadata[index] is None,
        metadata_after.len() == metadata.len(),
        metadata_after[index] is Some,
        forall|j: int|
            0 <= j < metadata.len() && j != index ==> (#[trigger] metadata_after[j])
                == metadata[j],
        match base_at(dependencies, index) {
            None => after == before && bytes_after == bytes,
            Some(base) => {
                &&& base < before.len()
                &&& before[base as int] matches Some(cached)
                &&& after == before.update(
                    base as int,
                    if cached.remaining_dependents > 1 {
                        Some(
                            CachedBase {
                                remaining_dependents: (cached.remaining_dependents - 1) as usize,
                                ..cached
                            },
                        )
                    } else {
                        None
                    },
                )
                &&& bytes_after == bytes - if cached.remaining_dependents > 1 {
                    0
                } else {
                    cached.bytes as int
                }
            },
        },
    ensures
        cache_sound(after, bytes_after, dependencies, ran, metadata_after),
        slots_kept(before, after),
{
    let count = before.len() as int;
    if let Some(base) = base_at(dependencies, index) {
        lemma_cache_update(before, base as int, after[base as int], count);
    }
    assert forall|i: int| 0 <= i < after.len() implies slot_waits(
        #[trigger] after[i],
        ran.contains(i),
        unrun(dependencies, metadata_after, i, count),
    ) by {
        lemma_unrun_step(dependencies, metadata, metadata_after, index, i, count);
        assert(slot_waits(before[i], ran.contains(i), unrun(dependencies, metadata, i, count)));
    }
}

/// Bytes that one wave's results retain for an entry.
pub open spec fn wave_retained<B, M>(
    results: Seq<ParallelValidationTaskResult<B, M>>,
    i: int,
) -> int
    decreases results.len(),
{
    if results.len() == 0 {
        0
    } else {
        wave_retained(results.drop_last(), i) + if results.last().index == i {
            output_bytes(results.last())
        } else {
            0
        }
    }
}

/// Bytes that a result retains.
pub open spec fn output_bytes<B, M>(result: ParallelValidationTaskResult<B, M>) -> int {
    match result.result {
        Ok(output) => match output.retained_base {
            Some(base) => base.bytes as int,
            None => 0,
        },
        Err(_) => 0,
    }
}

/// Bytes that the results of all waves retain for an entry.
pub open spec fn retained_bytes<B, M>(
    results: Seq<Seq<ParallelValidationTaskResult<B, M>>>,
    i: int,
) -> int
    decreases results.len(),
{
    if results.len() == 0 {
        0
    } else {
        retained_bytes(results.drop_last(), i) + wave_retained(results.last(), i)
    }
}

/// Some entry with this base was not handed over yet.
pub open spec fn base_awaited<B>(
    dependencies: Seq<ParallelValidationDependency>,
    waves: Seq<Seq<ParallelValidationTask<B>>>,
    i: int,
) -> bool {
    exists|j: int|
        0 <= j < dependencies.len() && (#[trigger] base_at(dependencies, j)) is Some && base_at(
            dependencies,
            j,
        )->0 == i && !handed_indices(waves).contains(j as usize)
}

/// Bytes kept after these waves for the first `count` entries: what was retained for each that is
/// still awaited as a base.
pub open spec fn bases_held<B, M>(
    dependencies: Seq<ParallelValidationDependency>,
    waves: Seq<Seq<ParallelValidationTask<B>>>,
    results: Seq<Seq<ParallelValidationTaskResult<B, M>>>,
    count: int,
) -> int
    decreases count,
{
    if count <= 0 {
        0
    } else {
        bases_held(dependencies, waves, results, count - 1) + if base_awaited(
            dependencies,
            waves,
            count - 1,
        ) {
            retained_bytes(results, count - 1)
        } else {
            0
        }
    }
}

/// Most bytes kept after any of these waves.
pub open spec fn most_kept<B, M>(
    dependencies: Seq<ParallelValidationDependency>,
    waves: Seq<Seq<ParallelValidationTask<B>>>,
    results: Seq<Seq<ParallelValidationTaskResult<B, M>>>,
) -> int
    decreases waves.len(),
{
    if waves.len() == 0 {
        0
    } else {
        let before = most_kept(dependencies, waves.drop_last(), results.drop_last());
        let now = bases_held(dependencies, waves, results, dependencies.len() as int);
        if before < now {
            now
        } else {
            before
        }
    }
}

/// A result of the last wave is a base that is waited for and retains nothing, no byte or more than
/// its result takes; or the bases kept after that wave take more than the cache may hold.
pub open spec fn bases_refused<B, M>(
    rows: Seq<PushPackIndexRow>,
    dependencies: Seq<ParallelValidationDependency>,
    costs: Seq<ParallelValidationCost>,
    limits: ParallelValidationLimits,
    waves: Seq<Seq<ParallelValidationTask<B>>>,
    results: Seq<Seq<ParallelValidationTaskResult<B, M>>>,
) -> bool {
    ||| exists|r: int|
        0 <= r < results.last().len() && (#[trigger] results.last()[r]).result is Ok && dependents(
            dependencies,
            results.last()[r].index as int,
            rows.len() as int,
        ).len() > 0 && match results.last()[r].result->Ok_0.retained_base {
            Some(base) => base.bytes == 0 || base.bytes
                > costs[results.last()[r].index as int].spec_result_bytes(),
            None => true,
        }
    ||| bases_held(dependencies, waves, results, rows.len() as int) > limits.base_cache_bytes
}

/// The first entries of a list of results.
spec fn listed<B>(
    list: Seq<(usize, Option<ParallelValidationRetainedBase<B>>)>,
    count: int,
) -> Set<int> {
    Set::new(|i: int| exists|k: int| 0 <= k < count && (#[trigger] list[k]).0 == i)
}

/// Every slot holds what it held before, or what the list retains for it.
spec fn slots_from<B>(
    before: Seq<Option<CachedBase<B>>>,
    list: Seq<(usize, Option<ParallelValidationRetainedBase<B>>)>,
    after: Seq<Option<CachedBase<B>>>,
) -> bool {
    forall|i: int|
        0 <= i < after.len() && (#[trigger] after[i]) is Some ==> before[i] is Some
            && before[i]->0.bytes == after[i]->0.bytes || retains(
            list,
            i,
            after[i]->0.bytes,
        )
}

/// The list retains so many bytes for an entry.
spec fn retains<B>(
    list: Seq<(usize, Option<ParallelValidationRetainedBase<B>>)>,
    i: int,
    bytes: u64,
) -> bool {
    exists|k: int|
        0 <= k < list.len() && (#[trigger] list[k]).0 == i && list[k].1 is Some
            && list[k].1->0.bytes == bytes
}

/// Keeping the base of an entry that has run, where it is waited for, keeps the cache sound.
proof fn lemma_cache_keep<B, M>(
    before: Seq<Option<CachedBase<B>>>,
    after: Seq<Option<CachedBase<B>>>,
    bytes: u64,
    bytes_after: u64,
    dependencies: Seq<ParallelValidationDependency>,
    ran: Set<int>,
    metadata: Seq<Option<M>>,
    index: int,
)
    requires
        cache_sound(before, bytes, dependencies, ran, metadata),
        0 <= index < before.len(),
        !ran.contains(index),
        unrun(dependencies, metadata, index, before.len() as int) >= 0,
        if unrun(dependencies, metadata, index, before.len() as int) > 0 {
            &&& after[index] matches Some(cached)
            &&& cached.remaining_dependents == unrun(
                dependencies,
                metadata,
                index,
                before.len() as int,
            )
            &&& after == before.update(index, Some(cached))
            &&& bytes_after == bytes + cached.bytes
        } else {
            after == before && bytes_after == bytes
        },
    ensures
        cache_sound(after, bytes_after, dependencies, ran.insert(index), metadata),
{
    let count = before.len() as int;
    assert(slot_waits(
        before[index],
        ran.contains(index),
        unrun(dependencies, metadata, index, count),
    ));
    lemma_cache_update(before, index, after[index], count);
    assert forall|i: int| 0 <= i < after.len() implies slot_waits(
        #[trigger] after[i],
        ran.insert(index).contains(i),
        unrun(dependencies, metadata, i, count),
    ) by {
        assert(slot_waits(before[i], ran.contains(i), unrun(dependencies, metadata, i, count)));
    }
}

impl<B, M> Schedule<B, M> {
    /// The cache holds what the results retained for the bases that are waited for, and the peak
    /// covers it.
    spec fn cached(
        self,
        dependencies: Seq<ParallelValidationDependency>,
        results: Seq<Seq<ParallelValidationTaskResult<B, M>>>,
    ) -> bool {
        &&& cache_sound(
            self.cache@,
            self.cache_bytes,
            dependencies,
            ran_set(self.metadata@),
            self.metadata@,
        )
        &&& self.cache_bytes <= self.peak_cache_bytes
        &&& forall|i: int|
            0 <= i < self.cache@.len() && (#[trigger] self.cache@[i]) is Some
                ==> self.cache@[i]->0.bytes == retained_bytes(results, i)
        &&& forall|i: int|
            0 <= i < self.metadata@.len() && (#[trigger] self.metadata@[i]) is None
                ==> retained_bytes(results, i) == 0
    }

    /// Sizes agree with the rows.
    spec fn sized(self, n: int) -> bool {
        &&& self.metadata@.len() == n
        &&& self.depths@.len() == n
        &&& self.cache@.len() == n
    }

    /// Ready entries are exactly those that may run.
    spec fn ready_wf(
        self,
        rows: Seq<PushPackIndexRow>,
        dependencies: Seq<ParallelValidationDependency>,
    ) -> bool {
        &&& ready_sorted(self.ready@)
        &&& forall|k: int|
            0 <= k < self.ready@.len() ==> {
                &&& (#[trigger] self.ready@[k]).1 < rows.len()
                &&& self.ready@[k].0 == rows[self.ready@[k].1 as int].entry.offset
            }
        &&& forall|i: usize|
            i < rows.len() ==> (#[trigger] ready_index(self.ready@, i) <==> runnable(
                self.metadata@,
                dependencies,
                i as int,
            ))
    }

    /// What has run agrees with what was handed over and returned.
    spec fn records(
        self,
        rows: Seq<PushPackIndexRow>,
        dependencies: Seq<ParallelValidationDependency>,
        waves: Seq<Seq<ParallelValidationTask<B>>>,
        results: Seq<Seq<ParallelValidationTaskResult<B, M>>>,
    ) -> bool {
        &&& self.sized(rows.len() as int)
        &&& forall|i: usize|
            i < rows.len() ==> (self.metadata@[i as int] is Some
                <==> #[trigger] handed_indices(waves).contains(i))
        &&& forall|i: int|
            0 <= i < rows.len() && (#[trigger] self.metadata@[i]) is Some ==> {
                &&& output_returned(results, i, self.metadata@[i]->0)
                &&& self.depths@[i] is Some
                &&& depth_handed(waves, i as usize, self.depths@[i]->0 as int)
                &&& match base_at(dependencies, i) {
                    Some(base) => self.metadata@[base as int] is Some,
                    None => true,
                }
            }
    }

    /// Start with the entries that have no base.
    fn new(rows: &[PushPackIndexRow], graph: &DependencyGraph) -> (schedule: Self)
        requires
            graph.wf(rows@),
        ensures
            schedule.records(rows@, graph.dependencies@, Seq::empty(), Seq::empty()),
            schedule.ready_wf(rows@, graph.dependencies@),
            schedule.cache_bytes == 0,
            schedule.peak_cache_bytes == 0,
            schedule.cached(graph.dependencies@, Seq::empty()),
    {
        let mut ready: Vec<(u64, usize)> = Vec::new();
        let mut metadata: Vec<Option<M>> = Vec::new();
        let mut depths: Vec<Option<u32>> = Vec::new();
        let mut cache: Vec<Option<CachedBase<B>>> = Vec::new();
        let mut at: usize = 0;
        while at < rows.len()
            invariant
                at <= rows@.len(),
                graph.dependencies@.len() == rows@.len(),
                metadata@.len() == at,
                depths@.len() == at,
                cache@.len() == at,
                cache_sum(cache@, at as int) == 0,
                forall|i: int| 0 <= i < at ==> (#[trigger] cache@[i]) is None,
                forall|i: int| 0 <= i < at ==> (#[trigger] metadata@[i]) is None,
                ready_sorted(ready@),
                forall|k: int|
                    0 <= k < ready@.len() ==> {
                        &&& (#[trigger] ready@[k]).1 < at
                        &&& ready@[k].0 == rows@[ready@[k].1 as int].entry.offset
                    },
                forall|i: usize| #[trigger]
                    ready_index(ready@, i) <==> i < at && base_at(
                        graph.dependencies@,
                        i as int,
                    ) is None,
            decreases rows.len() - at,
        {
            if graph.dependencies[at].base_index().is_none() {
                let ghost before = ready@;
                insert_ready(&mut ready, rows[at].entry.offset, at);
                proof {
                    assert forall|k: int| 0 <= k < ready@.len() implies {
                        &&& (#[trigger] ready@[k]).1 < at + 1
                        &&& ready@[k].0 == rows@[ready@[k].1 as int].entry.offset
                    } by {
                        if before.contains(ready@[k]) {
                            let j = choose|j: int| 0 <= j < before.len() && before[j] == ready@[k];
                            assert(before[j].1 < at);
                        }
                    }
                }
            }
            let ghost slots = cache@;
            metadata.push(None);
            depths.push(None);
            cache.push(None);
            proof {
                lemma_cache_prefix(slots, cache@, at as int);
            }
            at = at + 1;
        }
        let ghost m = metadata@;
        proof {
            assert forall|i: usize| i < rows@.len() implies (#[trigger] ready_index(ready@, i)
                <==> runnable(m, graph.dependencies@, i as int)) by {
                assert(m[i as int] is None);
                if let Some(base) = base_at(graph.dependencies@, i as int) {
                    assert(dependency_fits(rows@, i as int, graph.dependencies@[i as int]));
                    assert(base < rows@.len());
                    assert(m[base as int] is None);
                }
            }
            assert(handed_indices(Seq::<Seq<ParallelValidationTask<B>>>::empty()) =~= Seq::<
                usize,
            >::empty());
        }
        Schedule { ready, metadata, depths, cache, cache_bytes: 0, peak_cache_bytes: 0 }
    }
}

/// The task of an entry, given the depths of what has run.
spec fn task_planned<B>(
    task: ParallelValidationTask<B>,
    index: usize,
    rows: Seq<PushPackIndexRow>,
    dependencies: Seq<ParallelValidationDependency>,
    totals: Seq<u64>,
    depths: Seq<Option<u32>>,
    max_depth: u32,
) -> bool {
    &&& task.index == index
    &&& task.row == rows[index as int]
    &&& task.dependency == dependencies[index as int]
    &&& task.byte_limit == totals[index as int]
    &&& task.expected_delta_depth <= max_depth
    &&& depth_follows(dependencies, depths, index as int, task.expected_delta_depth)
    &&& task.base is Some <==> base_at(dependencies, index as int) is Some
}

/// The depth is one more than that of the base.
spec fn depth_follows(
    dependencies: Seq<ParallelValidationDependency>,
    depths: Seq<Option<u32>>,
    i: int,
    depth: u32,
) -> bool {
    match base_at(dependencies, i) {
        Some(base) => depths[base as int] is Some && depth == depths[base as int]->0 + 1,
        None => depth == if dependencies[i] is Direct {
            0int
        } else {
            1
        },
    }
}

/// A delta on this base is deeper than allowed, as far as its depth is known.
spec fn base_too_deep(depths: Seq<Option<u32>>, base: usize, max_depth: u32) -> bool {
    depths[base as int] is None || depths[base as int]->0 + 1 > max_depth
}

/// Results up to `count` were recorded, and nothing else changed.
spec fn settled<B, M>(
    all: Seq<ParallelValidationTaskResult<B, M>>,
    count: int,
    metadata_before: Seq<Option<M>>,
    depths_before: Seq<Option<u32>>,
    metadata: Seq<Option<M>>,
    depths: Seq<Option<u32>>,
) -> bool {
    &&& metadata.len() == metadata_before.len()
    &&& depths.len() == depths_before.len()
    &&& forall|k: int|
        0 <= k < count ==> (#[trigger] all[k]).result is Ok && metadata[all[k].index as int]
            == Some(all[k].result->Ok_0.metadata) && depths[all[k].index as int] == Some(
            all[k].result->Ok_0.delta_depth,
        )
    &&& forall|i: int|
        0 <= i < metadata.len() && (forall|k: int|
            0 <= k < count ==> (#[trigger] all[k]).index != i) ==> (#[trigger] metadata[i])
            == metadata_before[i] && depths[i] == depths_before[i]
}

impl<B: Clone, M> Schedule<B, M> {
    /// Compute the depth of an entry from that of its base.
    fn expected_depth(
        &self,
        dependency: ParallelValidationDependency,
        Ghost(dependencies): Ghost<Seq<ParallelValidationDependency>>,
        Ghost(i): Ghost<int>,
    ) -> (depth: Result<u32, ParallelValidationError>)
        requires
            dependencies[i] == dependency,
            base_at(dependencies, i) is Some ==> base_at(dependencies, i)->0 < self.depths@.len(),
        ensures
            match depth {
                Ok(depth) => depth_follows(dependencies, self.depths@, i, depth),
                Err(error) => error == ParallelValidationError::DeltaDepth && base_at(
                    dependencies,
                    i,
                ) is Some && forall|other: u32| !(#[trigger] depth_follows(
                    dependencies,
                    self.depths@,
                    i,
                    other,
                )),
            },
    {
        let base_depth: u32 = match dependency.base_index() {
            Some(base) => match self.depths[base] {
                Some(depth) => depth,
                None => {
                    return Err(ParallelValidationError::DeltaDepth);
                },
            },
            None => 0,
        };
        if !dependency.is_delta() {
            return Ok(0);
        }
        match base_depth.checked_add(1) {
            Some(depth) => Ok(depth),
            None => Err(ParallelValidationError::DeltaDepth),
        }
    }

    /// Build the tasks of a wave.
    fn plan_tasks(
        &self,
        rows: &[PushPackIndexRow],
        graph: &DependencyGraph,
        totals: &Vec<u64>,
        selected: &Vec<usize>,
        max_depth: u32,
    ) -> (result: Result<Vec<ParallelValidationTask<B>>, ParallelValidationError>)
        requires
            graph.wf(rows@),
            self.sized(rows@.len() as int),
            totals@.len() == rows@.len(),
            forall|k: int| 0 <= k < selected@.len() ==> #[trigger] selected@[k] < rows@.len(),
            max_depth > 0,
            forall|k: int|
                0 <= k < selected@.len() && base_at(
                    graph.dependencies@,
                    #[trigger] selected@[k] as int,
                ) is Some ==> self.cache@[base_at(
                    graph.dependencies@,
                    selected@[k] as int,
                )->0 as int] is Some,
        ensures
            match result {
                Ok(tasks) => {
                    &&& tasks@.len() == selected@.len()
                    &&& forall|k: int|
                        0 <= k < tasks@.len() ==> task_planned(
                            #[trigger] tasks@[k],
                            selected@[k],
                            rows@,
                            graph.dependencies@,
                            totals@,
                            self.depths@,
                            max_depth,
                        )
                },
                Err(error) => {
                    &&& error == ParallelValidationError::DeltaDepth
                    &&& exists|k: int|
                        0 <= k < selected@.len() && base_at(
                            graph.dependencies@,
                            #[trigger] selected@[k] as int,
                        ) is Some && base_too_deep(
                            self.depths@,
                            base_at(graph.dependencies@, selected@[k] as int)->0,
                            max_depth,
                        )
                },
            },
    {
        let mut tasks: Vec<ParallelValidationTask<B>> = Vec::new();
        let mut at: usize = 0;
        while at < selected.len()
            invariant
                at <= selected@.len(),
                tasks@.len() == at,
                graph.wf(rows@),
                self.sized(rows@.len() as int),
                totals@.len() == rows@.len(),
                max_depth > 0,
                forall|k: int| 0 <= k < selected@.len() ==> #[trigger] selected@[k] < rows@.len(),
                forall|k: int|
                    0 <= k < selected@.len() && base_at(
                        graph.dependencies@,
                        #[trigger] selected@[k] as int,
                    ) is Some ==> self.cache@[base_at(
                        graph.dependencies@,
                        selected@[k] as int,
                    )->0 as int] is Some,
                forall|k: int|
                    0 <= k < at ==> task_planned(
                        #[trigger] tasks@[k],
                        selected@[k],
                        rows@,
                        graph.dependencies@,
                        totals@,
                        self.depths@,
                        max_depth,
                    ),
            decreases selected.len() - at,
        {
            let index: usize = selected[at];
            assert(dependency_fits(rows@, index as int, graph.dependencies@[index as int]));
            let dependency = graph.dependencies[index];
            let mut base: Option<B> = None;
            if let Some(base_index) = dependency.base_index() {
                match &self.cache[base_index] {
                    Some(cached) => {
                        base = Some(cached.handle.clone());
                    },
                    None => {
                        assert(base_at(graph.dependencies@, selected@[at as int] as int) is Some);
                        return Err(ParallelValidationError::BaseCache);
                    },
                }
            }
            let expected: u32 = match self.expected_depth(
                dependency,
                Ghost(graph.dependencies@),
                Ghost(index as int),
            ) {
                Ok(expected) => expected,
                Err(error) => {
                    proof {
                        let base = base_at(graph.dependencies@, selected@[at as int] as int)->0;
                        if let Some(depth) = self.depths@[base as int] {
                            if depth < u32::MAX {
                                assert(depth_follows(
                                    graph.dependencies@,
                                    self.depths@,
                                    index as int,
                                    (depth + 1) as u32,
                                ));
                            }
                        }
                        assert(base_too_deep(self.depths@, base, max_depth));
                    }
                    return Err(error);
                },
            };
            if expected > max_depth {
                assert(base_at(graph.dependencies@, selected@[at as int] as int) is Some);
                assert(base_too_deep(
                    self.depths@,
                    base_at(graph.dependencies@, selected@[at as int] as int)->0,
                    max_depth,
                ));
                return Err(ParallelValidationError::DeltaDepth);
            }
            tasks.push(
                ParallelValidationTask {
                    index,
                    row: rows[index],
                    dependency,
                    base,
                    expected_delta_depth: expected,
                    byte_limit: totals[index],
                },
            );
            at = at + 1;
        }
        Ok(tasks)
    }

    /// One dependent of a base has run: evict the base after the last.
    fn release_base(&mut self, base: usize) -> (result: Result<(), ParallelValidationError>)
        requires
            base < old(self).cache@.len(),
        ensures
            final(self).ready == old(self).ready,
            final(self).metadata == old(self).metadata,
            final(self).depths == old(self).depths,
            final(self).cache@.len() == old(self).cache@.len(),
            final(self).cache_bytes <= old(self).cache_bytes,
            final(self).peak_cache_bytes == old(self).peak_cache_bytes,
            result is Err ==> result->Err_0 == ParallelValidationError::BaseCache,
            match old(self).cache@[base as int] {
                None => result is Err && final(self).cache@ == old(self).cache@ && final(self).cache_bytes == old(self).cache_bytes,
                Some(cached) => {
                    &&& result is Ok <==> cached.remaining_dependents > 1 || (
                    cached.remaining_dependents == 1 && cached.bytes <= old(self).cache_bytes)
                    &&& final(self).cache@ == old(self).cache@.update(
                        base as int,
                        if cached.remaining_dependents > 1 {
                            Some(
                                CachedBase {
                                    remaining_dependents: (cached.remaining_dependents - 1) as usize,
                                    ..cached
                                },
                            )
                        } else {
                            None
                        },
                    )
                    &&& final(self).cache_bytes == old(self).cache_bytes - if result is Ok
                        && cached.remaining_dependents == 1 {
                        cached.bytes as int
                    } else {
                        0
                    }
                },
            },
    {
        let mut slot: Option<CachedBase<B>> = None;
        std::mem::swap(&mut slot, &mut self.cache[base]);
        match slot {
            None => Err(ParallelValidationError::BaseCache),
            Some(cached) => {
                let mut cached: CachedBase<B> = cached;
                if cached.remaining_dependents == 0 {
                    return Err(ParallelValidationError::BaseCache);
                }
                cached.remaining_dependents = cached.remaining_dependents - 1;
                if cached.remaining_dependents == 0 {
                    if cached.bytes > self.cache_bytes {
                        return Err(ParallelValidationError::BaseCache);
                    }
                    self.cache_bytes = self.cache_bytes - cached.bytes;
                } else {
                    self.cache[base] = Some(cached);
                }
                Ok(())
            },
        }
    }

    /// Record the results of a wave, and release the bases that they used.
    #[verifier::rlimit(60)]
    fn settle(
        &mut self,
        ordered: Vec<ParallelValidationTaskResult<B, M>>,
        rows: &[PushPackIndexRow],
        graph: &DependencyGraph,
        max_depth: u32,
    ) -> (result: Result<
        Vec<(usize, Option<ParallelValidationRetainedBase<B>>)>,
        ParallelValidationError,
    >)
        requires
            graph.wf(rows@),
            old(self).sized(rows@.len() as int),
            forall|k: int|
                0 <= k < ordered@.len() ==> (#[trigger] ordered@[k]).result is Ok && ordered@[k].index
                    < rows@.len(),
            forall|i: int, j: int|
                #![trigger ordered@[i], ordered@[j]]
                0 <= i < j < ordered@.len() ==> ordered@[i].index < ordered@[j].index,
            forall|k: int|
                0 <= k < ordered@.len() ==> runnable(
                    old(self).metadata@,
                    graph.dependencies@,
                    (#[trigger] ordered@[k]).index as int,
                ),
            cache_sound(
                old(self).cache@,
                old(self).cache_bytes,
                graph.dependencies@,
                ran_set(old(self).metadata@),
                old(self).metadata@,
            ),
        ensures
            final(self).ready == old(self).ready,
            final(self).sized(rows@.len() as int),
            final(self).cache_bytes <= old(self).cache_bytes,
            final(self).peak_cache_bytes == old(self).peak_cache_bytes,
            match result {
                Ok(retained) => {
                    &&& cache_sound(
                        final(self).cache@,
                        final(self).cache_bytes,
                        graph.dependencies@,
                        ran_set(old(self).metadata@),
                        final(self).metadata@,
                    )
                    &&& slots_kept(old(self).cache@, final(self).cache@)
                    &&& retained@.len() == ordered@.len()
                    &&& forall|k: int|
                        0 <= k < retained@.len() ==> (#[trigger] retained@[k]).0 == ordered@[k].index
                            && retained@[k].1 == ordered@[k].result->Ok_0.retained_base
                    &&& settled(
                        ordered@,
                        ordered@.len() as int,
                        old(self).metadata@,
                        old(self).depths@,
                        final(self).metadata@,
                        final(self).depths@,
                    )
                    &&& forall|k: int|
                        0 <= k < ordered@.len() ==> depth_follows(
                            graph.dependencies@,
                            old(self).depths@,
                            (#[trigger] ordered@[k]).index as int,
                            ordered@[k].result->Ok_0.delta_depth,
                        )
                },
                Err(error) => error == ParallelValidationError::DeltaDepth && exists|k: int|
                    0 <= k < ordered@.len() && ((
                    #[trigger] ordered@[k]).result->Ok_0.delta_depth > max_depth || !depth_follows(
                        graph.dependencies@,
                        old(self).depths@,
                        ordered@[k].index as int,
                        ordered@[k].result->Ok_0.delta_depth,
                    )),
            },
    {
        let ghost all = ordered@;
        let ghost metadata_before = self.metadata@;
        let ghost depths_before = self.depths@;
        let ghost dependencies = graph.dependencies@;
        let mut rest = ordered;
        let mut retained: Vec<(usize, Option<ParallelValidationRetainedBase<B>>)> = Vec::new();
        let total: usize = rest.len();
        let mut at: usize = 0;
        while at < total
            invariant
                at <= total,
                total == all.len(),
                rest@ == all.skip(at as int),
                graph.wf(rows@),
                dependencies == graph.dependencies@,
                self.sized(rows@.len() as int),
                metadata_before.len() == rows@.len(),
                depths_before.len() == rows@.len(),
                self.ready == old(self).ready,
                metadata_before == old(self).metadata@,
                cache_sound(
                    self.cache@,
                    self.cache_bytes,
                    dependencies,
                    ran_set(metadata_before),
                    self.metadata@,
                ),
                slots_kept(old(self).cache@, self.cache@),
                self.cache_bytes <= old(self).cache_bytes,
                self.peak_cache_bytes == old(self).peak_cache_bytes,
                forall|k: int|
                    0 <= k < all.len() ==> (#[trigger] all[k]).result is Ok && all[k].index
                        < rows@.len(),
                forall|i: int, j: int|
                    #![trigger all[i], all[j]]
                    0 <= i < j < all.len() ==> all[i].index < all[j].index,
                forall|k: int|
                    0 <= k < all.len() ==> runnable(
                        metadata_before,
                        dependencies,
                        (#[trigger] all[k]).index as int,
                    ),
                retained@.len() == at,
                all == ordered@,
                depths_before == old(self).depths@,
                forall|k: int|
                    0 <= k < at ==> (#[trigger] retained@[k]).0 == all[k].index && retained@[k].1
                        == all[k].result->Ok_0.retained_base,
                settled(
                    all,
                    at as int,
                    metadata_before,
                    depths_before,
                    self.metadata@,
                    self.depths@,
                ),
                forall|k: int|
                    0 <= k < at ==> depth_follows(
                        dependencies,
                        depths_before,
                        (#[trigger] all[k]).index as int,
                        all[k].result->Ok_0.delta_depth,
                    ),
            decreases total - at,
        {
            let ghost metadata_now = self.metadata@;
            let ghost depths_now = self.depths@;
            assert(rest@[0] == all[at as int]);
            let completion = rest.remove(0);
            assert(rest@ =~= all.skip(at + 1));
            let index: usize = completion.index;
            assert(dependency_fits(rows@, index as int, dependencies[index as int]));
            let output = match completion.result {
                Ok(output) => output,
                Err(failure) => {
                    assert(all[at as int].result is Err);
                    return Err(ParallelValidationError::Entry { index, failure });
                },
            };
            proof {
                if let Some(base) = base_at(dependencies, index as int) {
                    assert(metadata_before[base as int] is Some);
                    assert forall|k: int| 0 <= k < at implies (#[trigger] all[k]).index != base by {
                        assert(metadata_before[all[k].index as int] is None);
                    }
                    assert(metadata_now[base as int] == metadata_before[base as int]);
                    assert(depths_now[base as int] == depths_before[base as int]);
                }
            }
            let expected: u32 = match self.expected_depth(
                graph.dependencies[index],
                Ghost(dependencies),
                Ghost(index as int),
            ) {
                Ok(expected) => expected,
                Err(error) => {
                    proof {
                        let depth = all[at as int].result->Ok_0.delta_depth;
                        assert(!depth_follows(dependencies, depths_now, index as int, depth));
                        assert(!depth_follows(dependencies, depths_before, index as int, depth));
                        assert(ordered@[at as int].result->Ok_0.delta_depth == depth);
                    }
                    return Err(error);
                },
            };
            if output.delta_depth != expected || output.delta_depth > max_depth {
                assert(all[at as int].result->Ok_0.delta_depth > max_depth || !depth_follows(
                    dependencies,
                    depths_before,
                    all[at as int].index as int,
                    all[at as int].result->Ok_0.delta_depth,
                ));
                return Err(ParallelValidationError::DeltaDepth);
            }
            self.depths[index] = Some(output.delta_depth);
            self.metadata[index] = Some(output.metadata);
            retained.push((index, output.retained_base));
            proof {
                assert(settled(
                    all,
                    at + 1,
                    metadata_before,
                    depths_before,
                    self.metadata@,
                    self.depths@,
                )) by {
                    assert forall|k: int| 0 <= k < at + 1 implies (#[trigger] all[k]).result is Ok
                        && self.metadata@[all[k].index as int] == Some(
                        all[k].result->Ok_0.metadata,
                    ) && self.depths@[all[k].index as int] == Some(
                        all[k].result->Ok_0.delta_depth,
                    ) by {
                        if k < at {
                            assert(all[k].index < all[at as int].index);
                        }
                    }
                    assert forall|i: int|
                        0 <= i < self.metadata@.len() && (forall|k: int|
                            0 <= k < at + 1 ==> (#[trigger] all[k]).index != i) implies (
                    #[trigger] self.metadata@[i]) == metadata_before[i] && self.depths@[i]
                        == depths_before[i] by {
                        assert(all[at as int].index != i);
                        assert(metadata_now[i] == metadata_before[i]);
                    }
                }
            }
            let ghost cache_now = self.cache@;
            let ghost bytes_now = self.cache_bytes;
            proof {
                assert forall|k: int| 0 <= k < at implies (#[trigger] all[k]).index != index by {
                    assert(all[k].index < all[at as int].index);
                }
                assert(metadata_now[index as int] == metadata_before[index as int]);
                assert(runnable(metadata_before, dependencies, all[at as int].index as int));
            }
            if let Some(base) = graph.dependencies[index].base_index() {
                proof {
                    assert(base_at(dependencies, index as int) == Some(base));
                    let count = rows@.len() as int;
                    lemma_unrun_some(dependencies, metadata_now, base as int, count);
                    assert(unrun(dependencies, metadata_now, base as int, count) > 0);
                    assert(slot_waits(
                        cache_now[base as int],
                        ran_set(metadata_before).contains(base as int),
                        unrun(dependencies, metadata_now, base as int, count),
                    ));
                    lemma_cache_update(cache_now, base as int, cache_now[base as int], count);
                }
                self.release_base(base)?;
            }
            proof {
                lemma_cache_release(
                    cache_now,
                    self.cache@,
                    bytes_now,
                    self.cache_bytes,
                    dependencies,
                    ran_set(metadata_before),
                    metadata_now,
                    self.metadata@,
                    index as int,
                );
            }
            at = at + 1;
        }
        Ok(retained)
    }
}

/// What an entry retains cannot be kept: nothing, no byte, more than its result takes, or more than
/// the cache has room for.
spec fn base_unfit<B, M>(
    schedule: Schedule<B, M>,
    costs: Seq<ParallelValidationCost>,
    base_cache_bytes: u64,
    list: Seq<(usize, Option<ParallelValidationRetainedBase<B>>)>,
    k: int,
) -> bool {
    match list[k].1 {
        Some(base) => base.bytes == 0 || base.bytes > costs[list[k].0 as int].spec_result_bytes()
            || schedule.cache_bytes + base.bytes > base_cache_bytes,
        None => true,
    }
}

/// The base of entry `k` of the list is waited for and cannot be kept.
spec fn base_refused<B, M>(
    schedule: Schedule<B, M>,
    dependencies: Seq<ParallelValidationDependency>,
    costs: Seq<ParallelValidationCost>,
    base_cache_bytes: u64,
    ran: Set<int>,
    list: Seq<(usize, Option<ParallelValidationRetainedBase<B>>)>,
    k: int,
) -> bool {
    &&& dependents(dependencies, list[k].0 as int, dependencies.len() as int).len() > 0
    &&& base_unfit(schedule, costs, base_cache_bytes, list, k)
    &&& cache_sound(
        schedule.cache@,
        schedule.cache_bytes,
        dependencies,
        ran.union(listed(list, k)),
        schedule.metadata@,
    )
}

/// The entry's base stands in the list from `from` on.
spec fn waits_on<B>(
    dependencies: Seq<ParallelValidationDependency>,
    list: Seq<(usize, Option<ParallelValidationRetainedBase<B>>)>,
    from: int,
    i: int,
) -> bool {
    base_at(dependencies, i) is Some && exists|k: int|
        from <= k < list.len() && (#[trigger] list[k]).0 == base_at(dependencies, i)->0
}

impl<B: Clone, M> Schedule<B, M> {
    /// Offsets stand beside the ready entries.
    spec fn ready_placed(self, rows: Seq<PushPackIndexRow>) -> bool {
        &&& ready_sorted(self.ready@)
        &&& forall|k: int|
            0 <= k < self.ready@.len() ==> {
                &&& (#[trigger] self.ready@[k]).1 < rows.len()
                &&& self.ready@[k].0 == rows[self.ready@[k].1 as int].entry.offset
            }
    }

    /// Keep the decoded result of an entry for its dependents.
    fn keep_base(
        &mut self,
        index: usize,
        retained: Option<ParallelValidationRetainedBase<B>>,
        dependent_count: usize,
        cost: ParallelValidationCost,
        base_cache_bytes: u64,
    ) -> (result: Result<(), ParallelValidationError>)
        requires
            index < old(self).cache@.len(),
        ensures
            final(self).ready == old(self).ready,
            final(self).metadata == old(self).metadata,
            final(self).depths == old(self).depths,
            final(self).cache@.len() == old(self).cache@.len(),
            match result {
                Ok(_) => match retained {
                    Some(base) => {
                        &&& dependent_count > 0
                        &&& 0 < base.bytes <= cost.spec_result_bytes()
                        &&& final(self).cache@ == old(self).cache@.update(
                            index as int,
                            Some(
                                CachedBase {
                                    handle: base.handle,
                                    bytes: base.bytes,
                                    remaining_dependents: dependent_count,
                                },
                            ),
                        )
                        &&& final(self).cache_bytes == old(self).cache_bytes + base.bytes
                        &&& final(self).cache_bytes <= base_cache_bytes
                        &&& final(self).peak_cache_bytes == if old(self).peak_cache_bytes
                            < final(self).cache_bytes {
                            final(self).cache_bytes
                        } else {
                            old(self).peak_cache_bytes
                        }
                    },
                    None => dependent_count == 0 && *final(self) == *old(self),
                },
                Err(error) => {
                    &&& *final(self) == *old(self)
                    &&& if dependent_count > 0 {
                        error == ParallelValidationError::BaseCache && match retained {
                            Some(base) => base.bytes == 0 || base.bytes > cost.spec_result_bytes()
                                || old(self).cache_bytes + base.bytes > base_cache_bytes,
                            None => true,
                        }
                    } else {
                        error == ParallelValidationError::ExecutorContract && retained is Some
                    }
                },
            },
    {
        if dependent_count == 0 {
            return match retained {
                Some(_) => Err(ParallelValidationError::ExecutorContract),
                None => Ok(()),
            };
        }
        let base = match retained {
            Some(base) => base,
            None => {
                return Err(ParallelValidationError::BaseCache);
            },
        };
        let next_cache: u64 = match self.cache_bytes.checked_add(base.bytes) {
            Some(next) => next,
            None => {
                return Err(ParallelValidationError::BaseCache);
            },
        };
        if base.bytes == 0 || base.bytes > cost.result_bytes() || next_cache > base_cache_bytes {
            return Err(ParallelValidationError::BaseCache);
        }
        self.cache_bytes = next_cache;
        self.cache[index] = Some(
            CachedBase {
                handle: base.handle,
                bytes: base.bytes,
                remaining_dependents: dependent_count,
            },
        );
        if next_cache > self.peak_cache_bytes {
            self.peak_cache_bytes = next_cache;
        }
        Ok(())
    }

    /// Make the dependents of an entry that has run ready.
    fn release_dependents(
        &mut self,
        rows: &[PushPackIndexRow],
        graph: &DependencyGraph,
        index: usize,
        Ghost(list): Ghost<Seq<(usize, Option<ParallelValidationRetainedBase<B>>)>>,
        Ghost(at): Ghost<int>,
    )
        requires
            graph.wf(rows@),
            old(self).sized(rows@.len() as int),
            old(self).ready_placed(rows@),
            rows@.len() <= usize::MAX,
            0 <= at < list.len(),
            list[at].0 == index,
            index < rows@.len(),
            old(self).metadata@[index as int] is Some,
            forall|j: int| at < j < list.len() ==> (#[trigger] list[j]).0 != index,
            forall|x: usize|
                x < rows@.len() && base_at(graph.dependencies@, x as int) == Some(index) ==> (
                #[trigger] old(self).metadata@[x as int]) is None,
            forall|x: usize|
                x < rows@.len() ==> (#[trigger] ready_index(old(self).ready@, x) <==> runnable(
                    old(self).metadata@,
                    graph.dependencies@,
                    x as int,
                ) && !waits_on(graph.dependencies@, list, at, x as int)),
        ensures
            final(self).metadata == old(self).metadata,
            final(self).depths == old(self).depths,
            final(self).cache == old(self).cache,
            final(self).cache_bytes == old(self).cache_bytes,
            final(self).peak_cache_bytes == old(self).peak_cache_bytes,
            final(self).ready_placed(rows@),
            forall|x: usize|
                x < rows@.len() ==> (#[trigger] ready_index(final(self).ready@, x) <==> runnable(
                    final(self).metadata@,
                    graph.dependencies@,
                    x as int,
                ) && !waits_on(graph.dependencies@, list, at + 1, x as int)),
    {
        let ghost dependencies = graph.dependencies@;
        let ghost metadata = self.metadata@;
        let ghost children = graph.children@[index as int]@;
        proof {
            lemma_dependents(dependencies, index as int, rows@.len() as int);
        }
        let mut c: usize = 0;
        while c < graph.children[index].len()
            invariant
                graph.wf(rows@),
                index < rows@.len(),
                c <= children.len(),
                children == graph.children@[index as int]@,
                children == dependents(dependencies, index as int, rows@.len() as int),
                dependencies == graph.dependencies@,
                dependencies.len() == rows@.len(),
                self.metadata == old(self).metadata,
                self.depths == old(self).depths,
                self.cache == old(self).cache,
                self.cache_bytes == old(self).cache_bytes,
                self.peak_cache_bytes == old(self).peak_cache_bytes,
                self.ready_placed(rows@),
                metadata == self.metadata@,
                metadata[index as int] is Some,
                0 <= at < list.len(),
                list[at].0 == index,
                children.no_duplicates(),
                forall|k: int|
                    0 <= k < children.len() ==> {
                        let child = #[trigger] children[k] as int;
                        child < rows@.len() && base_at(dependencies, child) is Some && base_at(
                            dependencies,
                            child,
                        )->0 == index
                    },
                forall|x: usize|
                    x < rows@.len() && base_at(dependencies, x as int) == Some(index) ==> (
                    #[trigger] metadata[x as int]) is None,
                forall|x: usize|
                    x < rows@.len() ==> (#[trigger] ready_index(self.ready@, x) <==> runnable(
                        metadata,
                        dependencies,
                        x as int,
                    ) && (!waits_on(dependencies, list, at, x as int) || children.take(
                        c as int,
                    ).contains(x))),
            decreases children.len() - c,
        {
            let child: usize = graph.children[index][c];
            let ghost before = self.ready@;
            let ghost front = children.take(c as int);
            let ghost more = children.take(c + 1);
            proof {
                assert(children[c as int] == child);
                assert(waits_on(dependencies, list, at, child as int)) by {
                    assert(list[at].0 == base_at(dependencies, child as int)->0);
                }
                if front.contains(child) {
                    let j = choose|j: int| 0 <= j < front.len() && front[j] == child;
                    assert(children[j] == children[c as int]);
                }
                assert(metadata[child as int] is None);
                assert(runnable(metadata, dependencies, child as int));
                assert(more =~= front.push(child));
            }
            insert_ready(&mut self.ready, rows[child].entry.offset, child);
            proof {
                assert forall|k: int| 0 <= k < self.ready@.len() implies {
                    &&& (#[trigger] self.ready@[k]).1 < rows@.len()
                    &&& self.ready@[k].0 == rows@[self.ready@[k].1 as int].entry.offset
                } by {
                    if before.contains(self.ready@[k]) {
                        let j = choose|j: int| 0 <= j < before.len() && before[j] == self.ready@[k];
                        assert(before[j].1 < rows@.len());
                    }
                }
                assert forall|x: usize| x < rows@.len() implies (#[trigger] ready_index(
                    self.ready@,
                    x,
                ) <==> runnable(metadata, dependencies, x as int) && (!waits_on(
                    dependencies,
                    list,
                    at,
                    x as int,
                ) || more.contains(x))) by {
                    assert(ready_index(before, x) <==> runnable(metadata, dependencies, x as int)
                        && (!waits_on(dependencies, list, at, x as int) || front.contains(x)));
                    if front.contains(x) {
                        let j = choose|j: int| 0 <= j < front.len() && front[j] == x;
                        assert(more[j] == x);
                    }
                    if x == child {
                        assert(more[c as int] == x);
                    } else if more.contains(x) {
                        let j = choose|j: int| 0 <= j < more.len() && more[j] == x;
                        assert(front[j] == x);
                    }
                }
            }
            c = c + 1;
        }
        proof {
            assert(children.take(c as int) =~= children);
            assert forall|x: usize| x < rows@.len() implies (#[trigger] ready_index(self.ready@, x)
                <==> runnable(metadata, dependencies, x as int) && !waits_on(
                dependencies,
                list,
                at + 1,
                x as int,
            )) by {
                if children.contains(x) {
                    let j = choose|j: int| 0 <= j < children.len() && children[j] == x;
                    assert(base_at(dependencies, children[j] as int)->0 == index);
                    assert(!waits_on(dependencies, list, at + 1, x as int));
                } else {
                    if waits_on(dependencies, list, at, x as int) && !waits_on(
                        dependencies,
                        list,
                        at + 1,
                        x as int,
                    ) {
                        let k = choose|k: int|
                            at <= k < list.len() && (#[trigger] list[k]).0 == base_at(
                                dependencies,
                                x as int,
                            )->0;
                        assert(k == at);
                        assert(children.contains(x as int as usize));
                    }
                    if waits_on(dependencies, list, at + 1, x as int) {
                        let k = choose|k: int|
                            at + 1 <= k < list.len() && (#[trigger] list[k]).0 == base_at(
                                dependencies,
                                x as int,
                            )->0;
                        assert(waits_on(dependencies, list, at, x as int));
                    }
                }
            }
        }
    }

    /// Keep the bases of a wave, and make their dependents ready.
    #[verifier::rlimit(60)]
    fn retain(
        &mut self,
        retained: Vec<(usize, Option<ParallelValidationRetainedBase<B>>)>,
        rows: &[PushPackIndexRow],
        graph: &DependencyGraph,
        costs: &[ParallelValidationCost],
        base_cache_bytes: u64,
        Ghost(ran): Ghost<Set<int>>,
    ) -> (result: Result<(), ParallelValidationError>)
        requires
            graph.wf(rows@),
            costs@.len() == rows@.len(),
            old(self).sized(rows@.len() as int),
            old(self).ready_placed(rows@),
            old(self).cache_bytes <= base_cache_bytes,
            old(self).peak_cache_bytes <= base_cache_bytes,
            old(self).cache_bytes <= old(self).peak_cache_bytes,
            cache_sound(
                old(self).cache@,
                old(self).cache_bytes,
                graph.dependencies@,
                ran,
                old(self).metadata@,
            ),
            forall|k: int|
                0 <= k < retained@.len() ==> !ran.contains((#[trigger] retained@[k]).0 as int),
            forall|k: int|
                0 <= k < retained@.len() ==> (#[trigger] retained@[k]).0 < rows@.len()
                    && old(self).metadata@[retained@[k].0 as int] is Some,
            forall|i: int, j: int|
                #![trigger retained@[i], retained@[j]]
                0 <= i < j < retained@.len() ==> retained@[i].0 != retained@[j].0,
            forall|x: usize|
                x < rows@.len() && waits_on(graph.dependencies@, retained@, 0, x as int) ==> (
                #[trigger] old(self).metadata@[x as int]) is None,
            forall|x: usize|
                x < rows@.len() ==> (#[trigger] ready_index(old(self).ready@, x) <==> runnable(
                    old(self).metadata@,
                    graph.dependencies@,
                    x as int,
                ) && !waits_on(graph.dependencies@, retained@, 0, x as int)),
        ensures
            final(self).metadata == old(self).metadata,
            final(self).depths == old(self).depths,
            final(self).sized(rows@.len() as int),
            final(self).cache_bytes <= base_cache_bytes,
            final(self).peak_cache_bytes <= base_cache_bytes,
            slots_from(old(self).cache@, retained@, final(self).cache@),
            match result {
                Ok(_) => {
                    &&& final(self).ready_wf(rows@, graph.dependencies@)
                    &&& cache_sound(
                        final(self).cache@,
                        final(self).cache_bytes,
                        graph.dependencies@,
                        ran.union(listed(retained@, retained@.len() as int)),
                        final(self).metadata@,
                    )
                    &&& final(self).peak_cache_bytes == if old(self).peak_cache_bytes
                        < final(self).cache_bytes {
                        final(self).cache_bytes
                    } else {
                        old(self).peak_cache_bytes
                    }
                },
                Err(error) => {
                    ||| error == ParallelValidationError::BaseCache && exists|k: int|
                        0 <= k < retained@.len() && #[trigger] base_refused(
                            *final(self),
                            graph.dependencies@,
                            costs@,
                            base_cache_bytes,
                            ran,
                            retained@,
                            k,
                        )
                    ||| error == ParallelValidationError::ExecutorContract && exists|k: int|
                        0 <= k < retained@.len() && (#[trigger] retained@[k]).1 is Some
                            && dependents_are(rows@, retained@[k].0 as int, 0)
                },
            },
    {
        let ghost list = retained@;
        let ghost dependencies = graph.dependencies@;
        let mut rest = retained;
        let total: usize = rest.len();
        let rows_count: usize = rows.len();
        let mut at: usize = 0;
        assert(ran.union(listed(list, 0)) =~= ran);
        while at < total
            invariant
                at <= total,
                total == list.len(),
                rest@ == list.skip(at as int),
                list == retained@,
                graph.wf(rows@),
                dependencies == graph.dependencies@,
                rows_count == rows@.len(),
                costs@.len() == rows@.len(),
                self.sized(rows@.len() as int),
                self.ready_placed(rows@),
                self.metadata == old(self).metadata,
                self.depths == old(self).depths,
                self.cache_bytes <= base_cache_bytes,
                self.peak_cache_bytes <= base_cache_bytes,
                cache_sound(
                    self.cache@,
                    self.cache_bytes,
                    dependencies,
                    ran.union(listed(list, at as int)),
                    self.metadata@,
                ),
                slots_from(old(self).cache@, list, self.cache@),
                self.peak_cache_bytes == if old(self).peak_cache_bytes < self.cache_bytes {
                    self.cache_bytes
                } else {
                    old(self).peak_cache_bytes
                },
                forall|k: int|
                    0 <= k < list.len() ==> !ran.contains((#[trigger] list[k]).0 as int),
                forall|k: int|
                    0 <= k < list.len() ==> (#[trigger] list[k]).0 < rows@.len()
                        && self.metadata@[list[k].0 as int] is Some,
                forall|i: int, j: int|
                    #![trigger list[i], list[j]]
                    0 <= i < j < list.len() ==> list[i].0 != list[j].0,
                forall|x: usize|
                    x < rows@.len() && waits_on(dependencies, list, 0, x as int) ==> (
                    #[trigger] self.metadata@[x as int]) is None,
                forall|x: usize|
                    x < rows@.len() ==> (#[trigger] ready_index(self.ready@, x) <==> runnable(
                        self.metadata@,
                        dependencies,
                        x as int,
                    ) && !waits_on(dependencies, list, at as int, x as int)),
            decreases total - at,
        {
            assert(rest@[0] == list[at as int]);
            let (index, base) = rest.remove(0);
            assert(rest@ =~= list.skip(at + 1));
            let dependent_count: usize = graph.children[index].len();
            proof {
                assert(graph.children@[index as int]@ == dependents(
                    dependencies,
                    index as int,
                    rows@.len() as int,
                ));
                assert(dependent_count == 0 ==> dependents_are(rows@, index as int, 0));
            }
            let ghost cache_now = self.cache@;
            let ghost bytes_now = self.cache_bytes;
            let ghost here = ran.union(listed(list, at as int));
            proof {
                assert forall|j: int|
                    0 <= j < rows@.len() && (#[trigger] base_at(dependencies, j)) is Some
                        && base_at(dependencies, j)->0 == index implies self.metadata@[j] is None by {
                    assert(list[at as int].0 == base_at(dependencies, j)->0);
                    assert(waits_on(dependencies, list, 0, (j as usize) as int));
                    assert(self.metadata@[(j as usize) as int] is None);
                }
                lemma_unrun_all(dependencies, self.metadata@, index as int, rows@.len() as int);
                if here.contains(index as int) {
                    let k = choose|k: int| 0 <= k < at && (#[trigger] list[k]).0 == index;
                    assert(list[k].0 != list[at as int].0);
                }
            }
            match self.keep_base(index, base, dependent_count, costs[index], base_cache_bytes) {
                Ok(done) => {
                    assert(done == ());
                },
                Err(error) => {
                    proof {
                        if dependent_count > 0 {
                            assert(base_unfit(*self, costs@, base_cache_bytes, list, at as int));
                            assert(dependencies.len() == rows@.len());
                            assert(base_refused(
                                *self,
                                dependencies,
                                costs@,
                                base_cache_bytes,
                                ran,
                                list,
                                at as int,
                            ));
                        } else {
                            assert(list[at as int].1 is Some);
                        }
                    }
                    return Err(error);
                },
            }
            proof {
                lemma_cache_keep(
                    cache_now,
                    self.cache@,
                    bytes_now,
                    self.cache_bytes,
                    dependencies,
                    here,
                    self.metadata@,
                    index as int,
                );
                assert(here.insert(index as int) =~= ran.union(listed(list, at + 1))) by {
                    assert forall|i: int| #[trigger] listed(list, at + 1).contains(i) <==> listed(
                        list,
                        at as int,
                    ).contains(i) || i == index by {
                        if i == index {
                            assert(list[at as int].0 == i);
                        }
                        if listed(list, at as int).contains(i) {
                            let k = choose|k: int| 0 <= k < at && (#[trigger] list[k]).0 == i;
                            assert(0 <= k < at + 1);
                        }
                        if listed(list, at + 1).contains(i) && i != index {
                            let k = choose|k: int| 0 <= k < at + 1 && (#[trigger] list[k]).0 == i;
                            assert(k < at);
                        }
                    }
                }
                assert(slots_from(old(self).cache@, list, self.cache@)) by {
                    assert forall|i: int|
                        0 <= i < self.cache@.len() && (#[trigger] self.cache@[i]) is Some implies old(
                        self,
                    ).cache@[i] is Some && old(self).cache@[i]->0.bytes
                        == self.cache@[i]->0.bytes || retains(
                        list,
                        i,
                        self.cache@[i]->0.bytes,
                    ) by {
                        if i == index && base is Some {
                            assert(list[at as int].0 == i);
                            assert(retains(list, i, self.cache@[i]->0.bytes));
                        } else {
                            assert(cache_now[i] == self.cache@[i]);
                        }
                    }
                }
                assert forall|j: int| at < j < list.len() implies (#[trigger] list[j]).0
                    != index by {
                    assert(list[at as int].0 != list[j].0);
                }
                assert forall|x: usize|
                    x < rows@.len() && base_at(dependencies, x as int) == Some(index) implies (
                #[trigger] self.metadata@[x as int]) is None by {
                    assert(list[at as int].0 == base_at(dependencies, x as int)->0);
                    assert(waits_on(dependencies, list, 0, x as int));
                }
            }
            self.release_dependents(rows, graph, index, Ghost(list), Ghost(at as int));
            at = at + 1;
        }
        Ok(())
    }
}

/// Waves so far, and the most that one held.
struct Progress {
    completed: usize,
    waves: u64,
    peak_tasks: usize,
    peak_wave_bytes: u64,
}

/// Most tasks in one wave.
pub open spec fn most_tasks<B>(waves: Seq<Seq<ParallelValidationTask<B>>>) -> int
    decreases waves.len(),
{
    if waves.len() == 0 {
        0
    } else if most_tasks(waves.drop_last()) > waves.last().len() {
        most_tasks(waves.drop_last())
    } else {
        waves.last().len() as int
    }
}

/// Most bytes charged in one wave.
pub open spec fn most_bytes<B>(
    waves: Seq<Seq<ParallelValidationTask<B>>>,
    costs: Seq<ParallelValidationCost>,
) -> int
    decreases waves.len(),
{
    if waves.len() == 0 {
        0
    } else if most_bytes(waves.drop_last(), costs) > wave_charge(
        wave_indices(waves.last()),
        costs,
    ) {
        most_bytes(waves.drop_last(), costs)
    } else {
        wave_charge(wave_indices(waves.last()), costs)
    }
}

/// The charge of a wave only grows.
proof fn lemma_charge_grows(
    selected: Seq<usize>,
    costs: Seq<ParallelValidationCost>,
    count: int,
)
    requires
        0 <= count <= selected.len(),
    ensures
        0 <= wave_charge(selected.take(count), costs) <= wave_charge(selected, costs),
    decreases selected.len(),
{
    if selected.len() == 0 {
        assert(selected.take(count) =~= selected);
    } else if count == selected.len() {
        assert(selected.take(count) =~= selected);
        assert(selected.drop_last().take(count - 1) =~= selected.drop_last());
        lemma_charge_grows(selected.drop_last(), costs, count - 1);
    } else {
        lemma_charge_grows(selected.drop_last(), costs, count);
        assert(selected.drop_last().take(count) =~= selected.take(count));
    }
}

/// Add up the charge of a wave.
fn wave_total(
    selected: &Vec<usize>,
    totals: &Vec<u64>,
    Ghost(costs): Ghost<Seq<ParallelValidationCost>>,
) -> (total: u64)
    requires
        totals@.len() == costs.len(),
        forall|i: int| 0 <= i < costs.len() ==> (#[trigger] costs[i]).charge() == totals@[i],
        forall|k: int| 0 <= k < selected@.len() ==> #[trigger] selected@[k] < costs.len(),
        wave_charge(selected@, costs) <= u64::MAX,
    ensures
        total == wave_charge(selected@, costs),
{
    let mut total: u64 = 0;
    let mut at: usize = 0;
    while at < selected.len()
        invariant
            at <= selected@.len(),
            totals@.len() == costs.len(),
            forall|i: int| 0 <= i < costs.len() ==> (#[trigger] costs[i]).charge() == totals@[i],
            forall|k: int| 0 <= k < selected@.len() ==> #[trigger] selected@[k] < costs.len(),
            wave_charge(selected@, costs) <= u64::MAX,
            total == wave_charge(selected@.take(at as int), costs),
        decreases selected.len() - at,
    {
        proof {
            let more = selected@.take(at + 1);
            lemma_charge_grows(selected@, costs, at + 1);
            assert(more.drop_last() =~= selected@.take(at as int));
            assert(more.last() == selected@[at as int]);
            assert(costs[selected@[at as int] as int].charge() == totals@[selected@[at as int] as int]);
        }
        total = total + totals[selected[at]];
        at = at + 1;
    }
    assert(selected@.take(at as int) =~= selected@);
    total
}

/// In a graph without cycles something may run until all has.
proof fn lemma_some_runnable<M>(
    dependencies: Seq<ParallelValidationDependency>,
    metadata: Seq<Option<M>>,
    order: Seq<usize>,
    k: int,
)
    requires
        topological(dependencies, order),
        metadata.len() == dependencies.len(),
        0 <= k < order.len(),
        metadata[order[k] as int] is None,
    ensures
        exists|i: usize| i < dependencies.len() && #[trigger] runnable(
            metadata,
            dependencies,
            i as int,
        ),
    decreases k,
{
    if let Some(base) = base_at(dependencies, order[k] as int) {
        if metadata[base as int] is None {
            let front = order.take(k);
            assert(front.contains(base));
            let j = choose|j: int| 0 <= j < front.len() && front[j] == base;
            assert(order[j] == base);
            lemma_some_runnable(dependencies, metadata, order, j);
        } else {
            assert(runnable(metadata, dependencies, order[k] as int));
        }
    } else {
        assert(runnable(metadata, dependencies, order[k] as int));
    }
}

/// Before all entries have run, some entry is ready.
proof fn lemma_ready_left<B, M>(
    schedule: Schedule<B, M>,
    rows: Seq<PushPackIndexRow>,
    dependencies: Seq<ParallelValidationDependency>,
    waves: Seq<Seq<ParallelValidationTask<B>>>,
    results: Seq<Seq<ParallelValidationTaskResult<B, M>>>,
)
    requires
        schedule.records(rows, dependencies, waves, results),
        schedule.ready_wf(rows, dependencies),
        acyclic(dependencies),
        dependencies.len() == rows.len(),
        rows.len() <= usize::MAX,
        handed_indices(waves).no_duplicates(),
        handed_indices(waves).len() < rows.len(),
    ensures
        schedule.ready@.len() > 0,
{
    let order = choose|order: Seq<usize>| #[trigger] topological(dependencies, order);
    lemma_some_unvisited(handed_indices(waves), rows.len() as int);
    let i = choose|i: int|
        0 <= i < rows.len() && !handed_indices(waves).contains(#[trigger] (i as usize));
    let index = i as usize;
    assert(schedule.metadata@[index as int] is None);
    lemma_order_covers(dependencies, order, i);
    let k = choose|k: int| 0 <= k < order.len() && order[k] == index;
    lemma_some_runnable(dependencies, schedule.metadata@, order, k);
    let r = choose|r: usize|
        r < dependencies.len() && #[trigger] runnable(schedule.metadata@, dependencies, r as int);
    assert(ready_index(schedule.ready@, r));
}

/// The state between two waves.
spec fn at_rest<B, M>(
    schedule: Schedule<B, M>,
    progress: Progress,
    rows: Seq<PushPackIndexRow>,
    dependencies: Seq<ParallelValidationDependency>,
    costs: Seq<ParallelValidationCost>,
    limits: ParallelValidationLimits,
    waves: Seq<Seq<ParallelValidationTask<B>>>,
    results: Seq<Seq<ParallelValidationTaskResult<B, M>>>,
) -> bool {
    &&& schedule.records(rows, dependencies, waves, results)
    &&& schedule.ready_wf(rows, dependencies)
    &&& waves_sound(waves, rows, dependencies, costs, limits)
    &&& progress.completed == handed_indices(waves).len()
    &&& progress.waves == waves.len()
    &&& results.len() == waves.len()
    &&& progress.peak_tasks == most_tasks(waves)
    &&& progress.peak_wave_bytes == most_bytes(waves, costs)
    &&& schedule.cache_bytes <= limits.base_cache_bytes
    &&& schedule.peak_cache_bytes <= limits.base_cache_bytes
    &&& schedule.cached(dependencies, results)
    &&& schedule.peak_cache_bytes == most_kept(dependencies, waves, results)
    &&& waves.len() == 0 ==> schedule.cache_bytes == 0
}

/// Recording the results of a wave keeps the records.
proof fn lemma_recorded<B, M>(
    before: Schedule<B, M>,
    after: Schedule<B, M>,
    rows: Seq<PushPackIndexRow>,
    dependencies: Seq<ParallelValidationDependency>,
    totals: Seq<u64>,
    max_depth: u32,
    waves: Seq<Seq<ParallelValidationTask<B>>>,
    results: Seq<Seq<ParallelValidationTaskResult<B, M>>>,
    selected: Seq<usize>,
    tasks: Seq<ParallelValidationTask<B>>,
    outcomes: Seq<ParallelValidationTaskResult<B, M>>,
    ordered: Seq<ParallelValidationTaskResult<B, M>>,
)
    requires
        before.records(rows, dependencies, waves, results),
        after.sized(rows.len() as int),
        rows.len() <= usize::MAX,
        graph_resolved(rows, dependencies),
        wave_indices(tasks) == selected,
        tasks.len() == selected.len(),
        handed_indices(waves.push(tasks)) == handed_indices(waves) + wave_indices(tasks),
        forall|k: int|
            0 <= k < tasks.len() ==> task_planned(
                #[trigger] tasks[k],
                selected[k],
                rows,
                dependencies,
                totals,
                before.depths@,
                max_depth,
            ),
        forall|k: int|
            0 <= k < selected.len() ==> #[trigger] selected[k] < rows.len() && runnable(
                before.metadata@,
                dependencies,
                selected[k] as int,
            ),
        settled(
            ordered,
            ordered.len() as int,
            before.metadata@,
            before.depths@,
            after.metadata@,
            after.depths@,
        ),
        forall|k: int|
            0 <= k < ordered.len() ==> depth_follows(
                dependencies,
                before.depths@,
                (#[trigger] ordered[k]).index as int,
                ordered[k].result->Ok_0.delta_depth,
            ),
        forall|k: int|
            0 <= k < ordered.len() ==> outcomes.contains(#[trigger] ordered[k])
                && selected.contains(ordered[k].index),
        forall|k: int| 0 <= k < selected.len() ==> result_for(ordered, #[trigger] selected[k]),
    ensures
        after.records(rows, dependencies, waves.push(tasks), results.push(outcomes)),
{
    let more_waves = waves.push(tasks);
    let more_results = results.push(outcomes);
    let handed = handed_indices(waves);
    let fresh = wave_indices(tasks);
    assert forall|i: usize| i < rows.len() implies (after.metadata@[i as int] is Some
        <==> #[trigger] handed_indices(more_waves).contains(i)) by {
        let all = handed + fresh;
        assert(handed.contains(i) <==> before.metadata@[i as int] is Some);
        if result_for(ordered, i) {
            let k = choose|k: int| 0 <= k < ordered.len() && (#[trigger] ordered[k]).index == i;
            assert(after.metadata@[ordered[k].index as int] is Some);
            assert(selected.contains(i));
            let s = choose|s: int| 0 <= s < selected.len() && selected[s] == i;
            assert(all[handed.len() + s] == i);
        } else {
            assert forall|k: int| 0 <= k < ordered.len() implies (#[trigger] ordered[k]).index
                != i as int by {}
            assert(after.metadata@[i as int] == before.metadata@[i as int]);
            if all.contains(i) {
                let a = choose|a: int| 0 <= a < all.len() && all[a] == i;
                if a >= handed.len() {
                    assert(selected[a - handed.len()] == i);
                } else {
                    assert(handed[a] == i);
                }
            }
            if handed.contains(i) {
                let a = choose|a: int| 0 <= a < handed.len() && handed[a] == i;
                assert(all[a] == i);
            }
        }
    }
    assert forall|i: int| 0 <= i < rows.len() && (#[trigger] after.metadata@[i]) is Some implies {
        &&& output_returned(more_results, i, after.metadata@[i]->0)
        &&& after.depths@[i] is Some
        &&& depth_handed(more_waves, i as usize, after.depths@[i]->0 as int)
        &&& match base_at(dependencies, i) {
            Some(base) => after.metadata@[base as int] is Some,
            None => true,
        }
    } by {
        assert(dependency_fits(rows, i, dependencies[i]));
        if let Some(base) = base_at(dependencies, i) {
            assert(base < rows.len());
            if before.metadata@[base as int] is Some && after.metadata@[base as int] is None {
                assert(!(forall|k: int|
                    0 <= k < ordered.len() ==> (#[trigger] ordered[k]).index != base as int));
                let k = choose|k: int|
                    0 <= k < ordered.len() && (#[trigger] ordered[k]).index == base as int;
                assert(after.metadata@[ordered[k].index as int] is Some);
            }
        }
        if result_for(ordered, i as usize) {
            let k = choose|k: int|
                0 <= k < ordered.len() && (#[trigger] ordered[k]).index == i as usize;
            assert(outcomes.contains(ordered[k]));
            let r = choose|r: int| 0 <= r < outcomes.len() && outcomes[r] == ordered[k];
            assert(more_results[results.len() as int][r].index == i);
            assert(selected.contains(ordered[k].index));
            let s = choose|s: int| 0 <= s < selected.len() && selected[s] == ordered[k].index;
            assert(task_planned(
                tasks[s],
                selected[s],
                rows,
                dependencies,
                totals,
                before.depths@,
                max_depth,
            ));
            assert(more_waves[waves.len() as int][s].index == i as usize);
            assert(runnable(before.metadata@, dependencies, selected[s] as int));
        } else {
            assert forall|k: int| 0 <= k < ordered.len() implies (#[trigger] ordered[k]).index
                != i by {}
            assert(after.metadata@[i] == before.metadata@[i]);
            let (w, k) = choose|w: int, k: int|
                0 <= w < results.len() && 0 <= k < results[w].len() && (
                #[trigger] results[w][k]).index == i && results[w][k].result is Ok
                    && results[w][k].result->Ok_0.metadata == before.metadata@[i]->0;
            assert(more_results[w][k] == results[w][k]);
            let (v, j) = choose|v: int, j: int|
                0 <= v < waves.len() && 0 <= j < waves[v].len() && (#[trigger] waves[v][j]).index
                    == i as usize && waves[v][j].expected_delta_depth == before.depths@[i]->0 as int;
            assert(more_waves[v][j] == waves[v][j]);
        }
    }
}

/// Some entry that may run costs more than the kept bases leave in flight.
pub open spec fn exceeds_room<B, M>(
    rows: Seq<PushPackIndexRow>,
    costs: Seq<ParallelValidationCost>,
    limits: ParallelValidationLimits,
    waves: Seq<Seq<ParallelValidationTask<B>>>,
    results: Seq<Seq<ParallelValidationTaskResult<B, M>>>,
) -> bool {
    exists|dependencies: Seq<ParallelValidationDependency>, i: usize|
        i < rows.len() && #[trigger] graph_resolved(rows, dependencies) && #[trigger] may_run(
            waves,
            dependencies,
            i,
        ) && costs[i as int].charge() > limits.receive.bytes_in_flight - bases_held(
            dependencies,
            waves,
            results,
            rows.len() as int,
        )
}

/// The kept bases leave nothing in flight.
pub open spec fn exceeds_flight<B, M>(
    rows: Seq<PushPackIndexRow>,
    limits: ParallelValidationLimits,
    waves: Seq<Seq<ParallelValidationTask<B>>>,
    results: Seq<Seq<ParallelValidationTaskResult<B, M>>>,
) -> bool {
    exists|dependencies: Seq<ParallelValidationDependency>| #[trigger]
        graph_resolved(rows, dependencies) && bases_held(
            dependencies,
            waves,
            results,
            rows.len() as int,
        ) > limits.receive.bytes_in_flight
}

/// Some entry has a base that was handed over at the greatest depth or beyond.
pub open spec fn chain_too_deep<B>(
    rows: Seq<PushPackIndexRow>,
    waves: Seq<Seq<ParallelValidationTask<B>>>,
    max_depth: u32,
) -> bool {
    exists|dependencies: Seq<ParallelValidationDependency>, i: int, depth: int|
        0 <= i < rows.len() && #[trigger] graph_resolved(rows, dependencies) && base_at(
            dependencies,
            i,
        ) is Some && depth >= max_depth && #[trigger] depth_handed(
            waves,
            base_at(dependencies, i)->0,
            depth,
        )
}

/// The bases of the last wave could not be kept.
pub open spec fn bases_unkept<B, M>(
    rows: Seq<PushPackIndexRow>,
    costs: Seq<ParallelValidationCost>,
    limits: ParallelValidationLimits,
    waves: Seq<Seq<ParallelValidationTask<B>>>,
    results: Seq<Seq<ParallelValidationTaskResult<B, M>>>,
) -> bool {
    exists|dependencies: Seq<ParallelValidationDependency>| #[trigger]
        graph_resolved(rows, dependencies) && bases_refused(
            rows,
            dependencies,
            costs,
            limits,
            waves,
            results,
        )
}

/// The most bytes kept after any of these waves.
pub open spec fn peak_kept<B, M>(
    rows: Seq<PushPackIndexRow>,
    waves: Seq<Seq<ParallelValidationTask<B>>>,
    results: Seq<Seq<ParallelValidationTaskResult<B, M>>>,
    bytes: int,
) -> bool {
    exists|dependencies: Seq<ParallelValidationDependency>| #[trigger]
        graph_resolved(rows, dependencies) && bytes == most_kept(dependencies, waves, results)
}

/// This many entries have entry `i` for their base.
pub open spec fn dependents_are(rows: Seq<PushPackIndexRow>, i: int, count: int) -> bool {
    exists|dependencies: Seq<ParallelValidationDependency>| #[trigger]
        graph_resolved(rows, dependencies) && dependents(
            dependencies,
            i,
            rows.len() as int,
        ).len() == count
}

/// The results do not answer the tasks one by one, or one of them retains a base that no entry
/// needs.
pub open spec fn contract_broken<B, M>(
    rows: Seq<PushPackIndexRow>,
    tasks: Seq<ParallelValidationTask<B>>,
    results: Seq<ParallelValidationTaskResult<B, M>>,
) -> bool {
    ||| !results_match(results, wave_indices(tasks))
    ||| exists|r: int|
        0 <= r < results.len() && (#[trigger] results[r]).result is Ok
            && results[r].result->Ok_0.retained_base is Some && dependents_are(
            rows,
            results[r].index as int,
            0,
        )
}

/// A result says another delta depth than its task expects, or one over the limit.
pub open spec fn depth_unexpected<B, M>(
    tasks: Seq<ParallelValidationTask<B>>,
    results: Seq<ParallelValidationTaskResult<B, M>>,
    max_depth: u32,
) -> bool {
    exists|r: int, t: int|
        0 <= r < results.len() && 0 <= t < tasks.len() && (#[trigger] results[r]).result is Ok
            && results[r].index == (#[trigger] tasks[t]).index && (
        results[r].result->Ok_0.delta_depth > max_depth || results[r].result->Ok_0.delta_depth
            != tasks[t].expected_delta_depth)
}

/// The entry was not handed over and waits for no base.
pub open spec fn may_run<B>(
    waves: Seq<Seq<ParallelValidationTask<B>>>,
    dependencies: Seq<ParallelValidationDependency>,
    i: usize,
) -> bool {
    &&& !handed_indices(waves).contains(i)
    &&& match base_at(dependencies, i as int) {
        Some(base) => handed_indices(waves).contains(base),
        None => true,
    }
}

/// The list holds every entry that may run after these waves, once.
pub open spec fn lists_ready<B>(
    rows: Seq<PushPackIndexRow>,
    waves: Seq<Seq<ParallelValidationTask<B>>>,
    dependencies: Seq<ParallelValidationDependency>,
    ready: Seq<usize>,
) -> bool {
    &&& graph_resolved(rows, dependencies)
    &&& ready.no_duplicates()
    &&& forall|i: usize| #[trigger]
        ready.contains(i) <==> i < rows.len() && may_run(waves, dependencies, i)
}

/// This many entries may run after these waves.
pub open spec fn ready_count<B>(
    rows: Seq<PushPackIndexRow>,
    waves: Seq<Seq<ParallelValidationTask<B>>>,
    count: u64,
) -> bool {
    exists|dependencies: Seq<ParallelValidationDependency>, ready: Seq<usize>| #[trigger]
        lists_ready(rows, waves, dependencies, ready) && ready.len() == count
}

/// The ready entries of a schedule are counted by its list.
proof fn lemma_ready_counted<B, M>(
    schedule: Schedule<B, M>,
    rows: Seq<PushPackIndexRow>,
    dependencies: Seq<ParallelValidationDependency>,
    waves: Seq<Seq<ParallelValidationTask<B>>>,
    results: Seq<Seq<ParallelValidationTaskResult<B, M>>>,
)
    requires
        schedule.records(rows, dependencies, waves, results),
        schedule.ready_wf(rows, dependencies),
        graph_resolved(rows, dependencies),
        schedule.ready@.len() <= u64::MAX,
    ensures
        ready_count(rows, waves, schedule.ready@.len() as u64),
{
    let listed = schedule.ready@;
    let ready = listed.map_values(|entry: (u64, usize)| entry.1);
    assert forall|i: int, j: int|
        0 <= i < ready.len() && 0 <= j < ready.len() && i != j implies ready[i] != ready[j] by {
        assert(listed[i].1 < rows.len());
        assert(listed[j].1 < rows.len());
    }
    assert forall|i: usize| #[trigger] ready.contains(i) <==> i < rows.len() && may_run(
        waves,
        dependencies,
        i,
    ) by {
        if ready.contains(i) {
            let k = choose|k: int| 0 <= k < ready.len() && ready[k] == i;
            assert(listed[k].1 == i);
            assert(listed[k].1 < rows.len());
            assert(ready_index(listed, i));
        }
        if i < rows.len() {
            assert(ready_index(listed, i) <==> runnable(
                schedule.metadata@,
                dependencies,
                i as int,
            ));
            assert(schedule.metadata@[i as int] is Some <==> handed_indices(waves).contains(i));
            assert(dependency_fits(rows, i as int, dependencies[i as int]));
            if let Some(base) = base_at(dependencies, i as int) {
                assert(schedule.metadata@[base as int] is Some <==> handed_indices(
                    waves,
                ).contains(base));
            }
            if ready_index(listed, i) {
                let k = choose|k: int| 0 <= k < listed.len() && (#[trigger] listed[k]).1 == i;
                assert(ready[k] == i);
            }
        }
    }
    assert(lists_ready(rows, waves, dependencies, ready));
}

/// What the checkpoint behind a wave charges: its bytes, but at least one unit.
pub open spec fn tasks_charge<B>(
    tasks: Seq<ParallelValidationTask<B>>,
    costs: Seq<ParallelValidationCost>,
) -> u64 {
    if wave_charge(wave_indices(tasks), costs) == 0 {
        1
    } else {
        wave_charge(wave_indices(tasks), costs) as u64
    }
}

/// A checkpoint before a wave is handed over stopped the run: the one that charges a unit more
/// than there are ready entries, or the one that charges a single unit.
pub open spec fn stopped_before<
    E: ParallelValidationExecutor,
    C: PushPackValidationControl,
    W: ParallelValidationWork,
>(
    rows: Seq<PushPackIndexRow>,
    limits: ParallelValidationLimits,
    waves: Seq<Seq<ParallelValidationTask<E::Base>>>,
    error: ParallelValidationError,
) -> bool {
    ||| interrupted::<C, W>(limits.started_at, limits.deadline, 1, error)
    ||| exists|count: u64| #[trigger]
        ready_count(rows, waves, count) && count < u64::MAX && interrupted::<C, W>(
            limits.started_at,
            limits.deadline,
            (count + 1) as u64,
            error,
        )
}

/// Why a wave fails, given the waves handed over: it is interrupted; or what earlier waves left leaves no room for it; or the
/// executor, or what it returned, fails.
pub open spec fn wave_failed<
    E: ParallelValidationExecutor,
    C: PushPackValidationControl,
    W: ParallelValidationWork,
>(
    rows: Seq<PushPackIndexRow>,
    costs: Seq<ParallelValidationCost>,
    limits: ParallelValidationLimits,
    waves: Seq<Seq<ParallelValidationTask<E::Base>>>,
    handed: bool,
    returned: Option<Seq<ParallelValidationTaskResult<E::Base, E::Metadata>>>,
    results: Seq<Seq<ParallelValidationTaskResult<E::Base, E::Metadata>>>,
    error: ParallelValidationError,
) -> bool {
    ||| !handed && stopped_before::<E, C, W>(rows, limits, waves, error)
    ||| handed && interrupted::<C, W>(
        limits.started_at,
        limits.deadline,
        tasks_charge(waves.last(), costs),
        error,
    )
    ||| waves.len() > 0 && !handed && error == ParallelValidationError::TaskTooLarge && exceeds_room(
        rows,
        costs,
        limits,
        waves,
        results,
    )
    ||| waves.len() > 0 && !handed && error == ParallelValidationError::BaseCache && exceeds_flight(
        rows,
        limits,
        waves,
        results,
    )
    ||| waves.len() > 0 && !handed && error == ParallelValidationError::DeltaDepth && chain_too_deep(
        rows,
        waves,
        limits.receive.max_delta_depth,
    )
    ||| handed && returned is None && exists|failure: ParallelValidationExecutorError| #[trigger]
        E::fails(failure) && error == mapped_error(failure)
    ||| handed && returned is Some && error == ParallelValidationError::ExecutorContract
        && contract_broken(rows, waves.last(), returned->0)
    ||| handed && returned is Some && error == ParallelValidationError::DeltaDepth
        && depth_unexpected(waves.last(), returned->0, limits.receive.max_delta_depth)
    ||| handed && returned is Some && error == ParallelValidationError::BaseCache
        && bases_unkept(rows, costs, limits, waves, results)
    ||| handed && returned is Some && error is Entry && lowest_rejection(
        returned->0,
        error->index,
        error->failure,
    )
}

/// Tighter bounds are within looser ones.
proof fn lemma_fits_within(
    selected: Seq<usize>,
    costs: Seq<ParallelValidationCost>,
    dependencies: Seq<ParallelValidationDependency>,
    tight: WaveBounds,
    loose: WaveBounds,
)
    requires
        wave_fits(selected, costs, dependencies, tight),
        tight.worker_count == loose.worker_count,
        tight.range_concurrency == loose.range_concurrency,
        tight.wave_bytes == loose.wave_bytes,
        tight.available_bytes <= loose.available_bytes,
    ensures
        wave_fits(selected, costs, dependencies, loose),
{
}

/// The tasks planned for a wave make it sound.
proof fn lemma_wave_planned<B, M>(
    schedule: Schedule<B, M>,
    rows: Seq<PushPackIndexRow>,
    dependencies: Seq<ParallelValidationDependency>,
    costs: Seq<ParallelValidationCost>,
    totals: Seq<u64>,
    limits: ParallelValidationLimits,
    waves: Seq<Seq<ParallelValidationTask<B>>>,
    results: Seq<Seq<ParallelValidationTaskResult<B, M>>>,
    selected: Seq<usize>,
    tasks: Seq<ParallelValidationTask<B>>,
)
    requires
        schedule.records(rows, dependencies, waves, results),
        waves_sound(waves, rows, dependencies, costs, limits),
        graph_resolved(rows, dependencies),
        costs.len() == rows.len(),
        totals.len() == rows.len(),
        forall|i: int| 0 <= i < costs.len() ==> (#[trigger] costs[i]).charge() == totals[i],
        selected.len() > 0,
        selected.no_duplicates(),
        wave_fits(selected, costs, dependencies, run_bounds(limits)),
        forall|k: int|
            0 <= k < selected.len() ==> #[trigger] selected[k] < rows.len() && runnable(
                schedule.metadata@,
                dependencies,
                selected[k] as int,
            ),
        tasks.len() == selected.len(),
        forall|k: int|
            0 <= k < tasks.len() ==> task_planned(
                #[trigger] tasks[k],
                selected[k],
                rows,
                dependencies,
                totals,
                schedule.depths@,
                limits.receive.max_delta_depth,
            ),
    ensures
        wave_indices(tasks) == selected,
        waves_sound(waves.push(tasks), rows, dependencies, costs, limits),
        handed_indices(waves.push(tasks)) == handed_indices(waves) + selected,
{
    assert(wave_indices(tasks) =~= selected) by {
        assert forall|k: int| 0 <= k < tasks.len() implies wave_indices(tasks)[k]
            == selected[k] by {
            assert(task_planned(
                tasks[k],
                selected[k],
                rows,
                dependencies,
                totals,
                schedule.depths@,
                limits.receive.max_delta_depth,
            ));
        }
    }
    assert forall|k: int| 0 <= k < tasks.len() implies task_sound(
        waves,
        #[trigger] tasks[k],
        rows,
        dependencies,
        costs,
        limits,
    ) && !handed_indices(waves).contains(tasks[k].index) by {
        let index = selected[k];
        assert(tasks[k].index == index);
        assert(costs[index as int].charge() == totals[index as int]);
        assert(dependency_fits(rows, index as int, dependencies[index as int]));
        if let Some(base) = base_at(dependencies, index as int) {
            assert(schedule.metadata@[base as int] is Some);
            assert(handed_indices(waves).contains(base));
        }
    }
    lemma_wave_added(waves, tasks, rows, dependencies, costs, limits);
}

/// Recording a wave leaves its dependents waiting, and nothing else.
proof fn lemma_waiting<B, M>(
    before: Schedule<B, M>,
    after_metadata: Seq<Option<M>>,
    kept: Seq<(u64, usize)>,
    rows: Seq<PushPackIndexRow>,
    dependencies: Seq<ParallelValidationDependency>,
    waves: Seq<Seq<ParallelValidationTask<B>>>,
    results: Seq<Seq<ParallelValidationTaskResult<B, M>>>,
    selected: Seq<usize>,
    list: Seq<(usize, Option<ParallelValidationRetainedBase<B>>)>,
)
    requires
        before.records(rows, dependencies, waves, results),
        before.ready_wf(rows, dependencies),
        graph_resolved(rows, dependencies),
        after_metadata.len() == rows.len(),
        forall|x: usize| #[trigger]
            ready_index(kept, x) <==> ready_index(before.ready@, x) && !selected.contains(x),
        forall|x: usize| #[trigger]
            selected.contains(x) ==> x < rows.len() && runnable(
                before.metadata@,
                dependencies,
                x as int,
            ),
        forall|x: usize|
            x < rows.len() ==> ((#[trigger] after_metadata[x as int]) is Some
                <==> before.metadata@[x as int] is Some || selected.contains(x)),
        forall|k: int| 0 <= k < list.len() ==> selected.contains((#[trigger] list[k]).0),
        forall|x: usize| #[trigger]
            selected.contains(x) ==> exists|k: int|
                0 <= k < list.len() && (#[trigger] list[k]).0 == x,
    ensures
        forall|x: usize|
            x < rows.len() && waits_on(dependencies, list, 0, x as int) ==> (
            #[trigger] after_metadata[x as int]) is None,
        forall|x: usize|
            x < rows.len() ==> (#[trigger] ready_index(kept, x) <==> runnable(
                after_metadata,
                dependencies,
                x as int,
            ) && !waits_on(dependencies, list, 0, x as int)),
{
    assert forall|x: usize|
        x < rows.len() && waits_on(dependencies, list, 0, x as int) implies (
    #[trigger] after_metadata[x as int]) is None by {
        let base = base_at(dependencies, x as int)->0;
        let k = choose|k: int| 0 <= k < list.len() && (#[trigger] list[k]).0 == base;
        assert(selected.contains(list[k].0));
        assert(before.metadata@[base as int] is None);
        if selected.contains(x) {
            assert(runnable(before.metadata@, dependencies, x as int));
        }
        if before.metadata@[x as int] is Some {
            assert(before.metadata@[base as int] is Some);
        }
    }
    assert forall|x: usize| x < rows.len() implies (#[trigger] ready_index(kept, x) <==> runnable(
        after_metadata,
        dependencies,
        x as int,
    ) && !waits_on(dependencies, list, 0, x as int)) by {
        assert(ready_index(before.ready@, x) <==> runnable(
            before.metadata@,
            dependencies,
            x as int,
        ));
        assert(dependency_fits(rows, x as int, dependencies[x as int]));
        assert(after_metadata[x as int] is Some <==> before.metadata@[x as int] is Some
            || selected.contains(x));
        if let Some(base) = base_at(dependencies, x as int) {
            assert(base < rows.len());
            assert(after_metadata[base as int] is Some <==> before.metadata@[base as int] is Some
                || selected.contains(base));
            if selected.contains(base) {
                let k = choose|k: int| 0 <= k < list.len() && (#[trigger] list[k]).0 == base;
                assert(waits_on(dependencies, list, 0, x as int));
                assert(runnable(before.metadata@, dependencies, base as int));
            } else if waits_on(dependencies, list, 0, x as int) {
                let k = choose|k: int| 0 <= k < list.len() && (#[trigger] list[k]).0 == base;
                assert(selected.contains(list[k].0));
            }
        }
    }
}

/// Of results with distinct indices, the one of an entry says what is retained for it.
proof fn lemma_wave_retained<B, M>(
    results: Seq<ParallelValidationTaskResult<B, M>>,
    i: int,
    r: int,
)
    requires
        tags(results).no_duplicates(),
    ensures
        0 <= r < results.len() && results[r].index == i ==> wave_retained(results, i)
            == output_bytes(results[r]),
        (forall|k: int| 0 <= k < results.len() ==> (#[trigger] results[k]).index != i)
            ==> wave_retained(results, i) == 0,
        wave_retained(results, i) >= 0,
    decreases results.len(),
{
    if results.len() > 0 {
        let front = results.drop_last();
        let last = results.len() - 1;
        assert forall|a: int, b: int|
            0 <= a < front.len() && 0 <= b < front.len() && a != b implies tags(front)[a]
            != tags(front)[b] by {
            assert(tags(results)[a] != tags(results)[b]);
        }
        lemma_wave_retained(front, i, r);
        if results[last].index == i {
            assert forall|k: int| 0 <= k < front.len() implies (#[trigger] front[k]).index != i by {
                assert(tags(results)[k] != tags(results)[last]);
            }
            if 0 <= r < last && results[r].index == i {
                assert(front[r].index == i);
            }
        } else if 0 <= r < results.len() && results[r].index == i {
            assert(front[r] == results[r]);
        }
        if forall|k: int| 0 <= k < results.len() ==> (#[trigger] results[k]).index != i {
            assert forall|k: int| 0 <= k < front.len() implies (#[trigger] front[k]).index != i by {
                assert(results[k].index != i);
            }
        }
    }
}

/// Nothing negative is retained.
proof fn lemma_retained_positive<B, M>(
    results: Seq<Seq<ParallelValidationTaskResult<B, M>>>,
    i: int,
)
    ensures
        retained_bytes(results, i) >= 0,
    decreases results.len(),
{
    if results.len() > 0 {
        lemma_retained_positive(results.drop_last(), i);
        lemma_wave_positive(results.last(), i);
    }
}

/// No wave retains anything negative.
proof fn lemma_wave_positive<B, M>(results: Seq<ParallelValidationTaskResult<B, M>>, i: int)
    ensures
        wave_retained(results, i) >= 0,
    decreases results.len(),
{
    if results.len() > 0 {
        lemma_wave_positive(results.drop_last(), i);
    }
}

/// The list says what the results of a wave retain, for entries that had not run.
spec fn wave_listed<B, M>(
    metadata: Seq<Option<M>>,
    outcomes: Seq<ParallelValidationTaskResult<B, M>>,
    list: Seq<(usize, Option<ParallelValidationRetainedBase<B>>)>,
) -> bool {
    &&& tags(outcomes).no_duplicates()
    &&& forall|k: int| 0 <= k < list.len() ==> outcome_listed(outcomes, #[trigger] list[k])
    &&& forall|r: int|
        0 <= r < outcomes.len() ==> (#[trigger] outcomes[r]).index < metadata.len()
            && metadata[outcomes[r].index as int] is None && listed(
            list,
            list.len() as int,
        ).contains(outcomes[r].index as int)
}

/// Some result is of this entry and retains this.
spec fn outcome_listed<B, M>(
    outcomes: Seq<ParallelValidationTaskResult<B, M>>,
    item: (usize, Option<ParallelValidationRetainedBase<B>>),
) -> bool {
    exists|r: int|
        0 <= r < outcomes.len() && (#[trigger] outcomes[r]).index == item.0
            && outcomes[r].result is Ok && outcomes[r].result->Ok_0.retained_base == item.1
}

/// What is retained for an entry after a wave: what was before, or what its result says.
proof fn lemma_retained_next<B, M>(
    before: Schedule<B, M>,
    dependencies: Seq<ParallelValidationDependency>,
    past: Seq<Seq<ParallelValidationTaskResult<B, M>>>,
    outcomes: Seq<ParallelValidationTaskResult<B, M>>,
    list: Seq<(usize, Option<ParallelValidationRetainedBase<B>>)>,
    i: int,
)
    requires
        before.cached(dependencies, past),
        before.cache@.len() == before.metadata@.len(),
        wave_listed(before.metadata@, outcomes, list),
        0 <= i < before.metadata@.len(),
    ensures
        before.cache@[i] is Some ==> retained_bytes(past.push(outcomes), i)
            == before.cache@[i]->0.bytes,
        forall|bytes: u64| #[trigger]
            retains(list, i, bytes) ==> retained_bytes(past.push(outcomes), i) == bytes,
        before.metadata@[i] is None && !listed(list, list.len() as int).contains(i)
            ==> retained_bytes(past.push(outcomes), i) == 0,
        retained_bytes(past.push(outcomes), i) >= 0,
{
    let all = past.push(outcomes);
    assert(all.drop_last() =~= past);
    assert(all.last() == outcomes);
    lemma_retained_positive(all, i);
    lemma_wave_retained(outcomes, i, 0);
    if before.cache@[i] is Some {
        assert(slot_waits(
            before.cache@[i],
            ran_set(before.metadata@).contains(i),
            unrun(dependencies, before.metadata@, i, before.cache@.len() as int),
        ));
        assert forall|k: int| 0 <= k < outcomes.len() implies (#[trigger] outcomes[k]).index
            != i by {}
    }
    assert forall|bytes: u64| #[trigger] retains(list, i, bytes) implies retained_bytes(all, i)
        == bytes by {
        let k = choose|k: int|
            0 <= k < list.len() && (#[trigger] list[k]).0 == i && list[k].1 is Some
                && list[k].1->0.bytes == bytes;
        assert(outcome_listed(outcomes, list[k]));
        let r = choose|r: int|
            0 <= r < outcomes.len() && (#[trigger] outcomes[r]).index == list[k].0
                && outcomes[r].result is Ok && outcomes[r].result->Ok_0.retained_base == list[k].1;
        lemma_wave_retained(outcomes, i, r);
        assert(before.metadata@[outcomes[r].index as int] is None);
    }
    if before.metadata@[i] is None && !listed(list, list.len() as int).contains(i) {
        assert forall|k: int| 0 <= k < outcomes.len() implies (#[trigger] outcomes[k]).index
            != i by {}
    }
}

/// Taking in a wave keeps what the cache holds tied to the results.
proof fn lemma_cached_next<B, M>(
    before: Schedule<B, M>,
    middle: Seq<Option<CachedBase<B>>>,
    after: Schedule<B, M>,
    dependencies: Seq<ParallelValidationDependency>,
    past: Seq<Seq<ParallelValidationTaskResult<B, M>>>,
    outcomes: Seq<ParallelValidationTaskResult<B, M>>,
    list: Seq<(usize, Option<ParallelValidationRetainedBase<B>>)>,
)
    requires
        before.cached(dependencies, past),
        before.cache@.len() == before.metadata@.len(),
        after.cache@.len() == before.cache@.len(),
        middle.len() == before.cache@.len(),
        after.metadata@.len() == before.metadata@.len(),
        wave_listed(before.metadata@, outcomes, list),
        slots_kept(before.cache@, middle),
        slots_from(middle, list, after.cache@),
        forall|i: int|
            0 <= i < before.metadata@.len() ==> ((#[trigger] after.metadata@[i]) is Some
                <==> before.metadata@[i] is Some || listed(list, list.len() as int).contains(i)),
        forall|k: int| 0 <= k < list.len() ==> (#[trigger] list[k]).0 < before.metadata@.len(),
        cache_sound(
            after.cache@,
            after.cache_bytes,
            dependencies,
            ran_set(before.metadata@).union(listed(list, list.len() as int)),
            after.metadata@,
        ),
        after.cache_bytes <= after.peak_cache_bytes,
    ensures
        after.cached(dependencies, past.push(outcomes)),
{
    let all = past.push(outcomes);
    assert(ran_set(before.metadata@).union(listed(list, list.len() as int)) =~= ran_set(
        after.metadata@,
    )) by {
        assert forall|i: int| #[trigger]
            listed(list, list.len() as int).contains(i) implies 0 <= i < before.metadata@.len() by {
            let k = choose|k: int| 0 <= k < list.len() && (#[trigger] list[k]).0 == i;
            assert(list[k].0 < before.metadata@.len());
        }
        assert forall|i: int|
            ran_set(before.metadata@).union(listed(list, list.len() as int)).contains(i)
                <==> ran_set(after.metadata@).contains(i) by {
            if 0 <= i < before.metadata@.len() {
                assert(after.metadata@[i] is Some <==> before.metadata@[i] is Some || listed(
                    list,
                    list.len() as int,
                ).contains(i));
            }
        }
    }
    assert forall|i: int|
        0 <= i < after.cache@.len() && (#[trigger] after.cache@[i]) is Some implies after.cache@[i]->0.bytes
        == retained_bytes(all, i) by {
        lemma_retained_next(before, dependencies, past, outcomes, list, i);
        if middle[i] is Some && middle[i]->0.bytes == after.cache@[i]->0.bytes {
            assert(before.cache@[i] is Some);
        }
    }
    assert forall|i: int|
        0 <= i < after.metadata@.len() && (#[trigger] after.metadata@[i]) is None implies retained_bytes(
        all,
        i,
    ) == 0 by {
        lemma_retained_next(before, dependencies, past, outcomes, list, i);
    }
}

/// The bytes in the cache are those of the bases that are awaited.
proof fn lemma_bases_held<B, M>(
    schedule: Schedule<B, M>,
    rows: Seq<PushPackIndexRow>,
    dependencies: Seq<ParallelValidationDependency>,
    waves: Seq<Seq<ParallelValidationTask<B>>>,
    results: Seq<Seq<ParallelValidationTaskResult<B, M>>>,
    count: int,
)
    requires
        schedule.records(rows, dependencies, waves, results),
        schedule.cached(dependencies, results),
        dependencies.len() == rows.len(),
        rows.len() <= usize::MAX,
        0 <= count <= rows.len(),
    ensures
        cache_sum(schedule.cache@, count) == bases_held(dependencies, waves, results, count),
    decreases count,
{
    if count > 0 {
        let i = count - 1;
        lemma_bases_held(schedule, rows, dependencies, waves, results, i);
        lemma_awaited(schedule, rows, dependencies, waves, results, i);
        let slot = schedule.cache@[i];
        assert(slot_waits(
            slot,
            ran_set(schedule.metadata@).contains(i),
            unrun(dependencies, schedule.metadata@, i, rows.len() as int),
        ));
        assert(schedule.metadata@[i] is None ==> retained_bytes(results, i) == 0);
    }
}

/// A base is awaited exactly while some of its dependents has not run.
proof fn lemma_awaited<B, M>(
    schedule: Schedule<B, M>,
    rows: Seq<PushPackIndexRow>,
    dependencies: Seq<ParallelValidationDependency>,
    waves: Seq<Seq<ParallelValidationTask<B>>>,
    results: Seq<Seq<ParallelValidationTaskResult<B, M>>>,
    i: int,
)
    requires
        schedule.records(rows, dependencies, waves, results),
        dependencies.len() == rows.len(),
        rows.len() <= usize::MAX,
    ensures
        unrun(dependencies, schedule.metadata@, i, rows.len() as int) >= 0,
        unrun(dependencies, schedule.metadata@, i, rows.len() as int) > 0 <==> base_awaited(
            dependencies,
            waves,
            i,
        ),
{
    let count = rows.len() as int;
    let metadata = schedule.metadata@;
    lemma_unrun_some(dependencies, metadata, i, count);
    if unrun(dependencies, metadata, i, count) > 0 {
        let j = choose|j: int|
            0 <= j < count && (#[trigger] base_at(dependencies, j)) is Some && base_at(
                dependencies,
                j,
            )->0 == i && metadata[j] is None;
        assert(metadata[(j as usize) as int] is Some <==> handed_indices(waves).contains(
            j as usize,
        ));
        assert(base_awaited(dependencies, waves, i));
    }
    if base_awaited(dependencies, waves, i) {
        let j = choose|j: int|
            0 <= j < dependencies.len() && (#[trigger] base_at(dependencies, j)) is Some && base_at(
                dependencies,
                j,
            )->0 == i && !handed_indices(waves).contains(j as usize);
        assert(metadata[(j as usize) as int] is Some <==> handed_indices(waves).contains(
            j as usize,
        ));
        assert(metadata[j] is None);
    }
}

/// A cache whose slots hold no more than what is retained for awaited bases holds no more than they
/// do.
proof fn lemma_held_covers<B, M>(
    cache: Seq<Option<CachedBase<B>>>,
    dependencies: Seq<ParallelValidationDependency>,
    waves: Seq<Seq<ParallelValidationTask<B>>>,
    results: Seq<Seq<ParallelValidationTaskResult<B, M>>>,
    count: int,
)
    requires
        0 <= count <= cache.len(),
        forall|i: int|
            0 <= i < count && (#[trigger] cache[i]) is Some ==> base_awaited(dependencies, waves, i)
                && cache[i]->0.bytes == retained_bytes(results, i),
    ensures
        cache_sum(cache, count) <= bases_held(dependencies, waves, results, count),
    decreases count,
{
    if count > 0 {
        lemma_held_covers(cache, dependencies, waves, results, count - 1);
        lemma_retained_positive(results, count - 1);
        if cache[count - 1] is Some {
            assert(base_awaited(dependencies, waves, count - 1));
        }
    }
}

/// A base that does not fit the cache takes the bases of its wave over the limit.
proof fn lemma_bases_overflow<B, M>(
    before: Schedule<B, M>,
    middle: Seq<Option<CachedBase<B>>>,
    stuck: Schedule<B, M>,
    rows: Seq<PushPackIndexRow>,
    dependencies: Seq<ParallelValidationDependency>,
    costs: Seq<ParallelValidationCost>,
    base_cache_bytes: u64,
    waves: Seq<Seq<ParallelValidationTask<B>>>,
    past: Seq<Seq<ParallelValidationTaskResult<B, M>>>,
    outcomes: Seq<ParallelValidationTaskResult<B, M>>,
    list: Seq<(usize, Option<ParallelValidationRetainedBase<B>>)>,
    k: int,
)
    requires
        before.cached(dependencies, past),
        before.cache@.len() == before.metadata@.len(),
        before.cache@.len() == rows.len(),
        stuck.records(rows, dependencies, waves, past.push(outcomes)),
        middle.len() == before.cache@.len(),
        wave_listed(before.metadata@, outcomes, list),
        slots_kept(before.cache@, middle),
        slots_from(middle, list, stuck.cache@),
        dependencies.len() == rows.len(),
        rows.len() <= usize::MAX,
        0 <= k < list.len(),
        list[k].0 < rows.len(),
        list[k].1 is Some,
        !ran_set(before.metadata@).union(listed(list, k)).contains(list[k].0 as int),
        forall|j: int|
            0 <= j < rows.len() && (#[trigger] base_at(dependencies, j)) is Some && base_at(
                dependencies,
                j,
            )->0 == list[k].0 ==> stuck.metadata@[j] is None,
        base_refused(
            stuck,
            dependencies,
            costs,
            base_cache_bytes,
            ran_set(before.metadata@),
            list,
            k,
        ),
        stuck.cache_bytes + list[k].1->0.bytes > base_cache_bytes,
    ensures
        bases_held(dependencies, waves, past.push(outcomes), rows.len() as int)
            > base_cache_bytes,
{
    let index = list[k].0 as int;
    let base = list[k].1->0;
    let count = rows.len() as int;
    let all = past.push(outcomes);
    let ran = ran_set(before.metadata@).union(listed(list, k));
    let slot = Some(CachedBase { handle: base.handle, bytes: base.bytes, remaining_dependents: 1 });
    let more = stuck.cache@.update(index, slot);
    assert(slot_waits(
        stuck.cache@[index],
        ran.contains(index),
        unrun(dependencies, stuck.metadata@, index, count),
    ));
    lemma_cache_update(stuck.cache@, index, slot, count);
    assert forall|i: int| 0 <= i < count && (#[trigger] more[i]) is Some implies base_awaited(
        dependencies,
        waves,
        i,
    ) && more[i]->0.bytes == retained_bytes(all, i) by {
        lemma_retained_next(before, dependencies, past, outcomes, list, i);
        lemma_awaited(stuck, rows, dependencies, waves, all, i);
        if i == index {
            assert(list[k].0 == i);
            assert(retains(list, i, base.bytes));
            lemma_unrun_all(dependencies, stuck.metadata@, index, count);
        } else {
            assert(stuck.cache@[i] == more[i]);
            assert(slot_waits(
                stuck.cache@[i],
                ran.contains(i),
                unrun(dependencies, stuck.metadata@, i, count),
            ));
            if middle[i] is Some && middle[i]->0.bytes == stuck.cache@[i]->0.bytes {
                assert(before.cache@[i] is Some);
            }
        }
    }
    lemma_held_covers(more, dependencies, waves, all, count);
}

/// Take in the results of a wave.
#[verifier::rlimit(60)]
fn absorb<B: Clone, M>(
    schedule: &mut Schedule<B, M>,
    results: Vec<ParallelValidationTaskResult<B, M>>,
    selected: &Vec<usize>,
    rows: &[PushPackIndexRow],
    graph: &DependencyGraph,
    costs: &[ParallelValidationCost],
    limits: ParallelValidationLimits,
    Ghost(before): Ghost<Schedule<B, M>>,
    Ghost(totals): Ghost<Seq<u64>>,
    Ghost(waves): Ghost<Seq<Seq<ParallelValidationTask<B>>>>,
    Ghost(past): Ghost<Seq<Seq<ParallelValidationTaskResult<B, M>>>>,
    Ghost(tasks): Ghost<Seq<ParallelValidationTask<B>>>,
) -> (result: Result<(), ParallelValidationError>)
    requires
        graph.wf(rows@),
        costs@.len() == rows@.len(),
        before.records(rows@, graph.dependencies@, waves, past),
        before.ready_wf(rows@, graph.dependencies@),
        before.cache_bytes <= limits.base_cache_bytes,
        before.peak_cache_bytes <= limits.base_cache_bytes,
        before.cached(graph.dependencies@, past),
        old(schedule).metadata == before.metadata,
        old(schedule).depths == before.depths,
        old(schedule).cache == before.cache,
        old(schedule).cache_bytes == before.cache_bytes,
        old(schedule).peak_cache_bytes == before.peak_cache_bytes,
        old(schedule).ready_placed(rows@),
        forall|x: usize| #[trigger]
            ready_index(old(schedule).ready@, x) <==> ready_index(before.ready@, x)
                && !selected@.contains(x),
        selected@.no_duplicates(),
        forall|k: int|
            0 <= k < selected@.len() ==> #[trigger] selected@[k] < rows@.len() && runnable(
                before.metadata@,
                graph.dependencies@,
                selected@[k] as int,
            ),
        wave_indices(tasks) == selected@,
        tasks.len() == selected@.len(),
        handed_indices(waves.push(tasks)) == handed_indices(waves) + wave_indices(tasks),
        forall|k: int|
            0 <= k < tasks.len() ==> task_planned(
                #[trigger] tasks[k],
                selected@[k],
                rows@,
                graph.dependencies@,
                totals,
                before.depths@,
                limits.receive.max_delta_depth,
            ),
    ensures
        match result {
            Ok(_) => {
                &&& final(schedule).records(
                    rows@,
                    graph.dependencies@,
                    waves.push(tasks),
                    past.push(results@),
                )
                &&& final(schedule).ready_wf(rows@, graph.dependencies@)
                &&& final(schedule).cache_bytes <= limits.base_cache_bytes
                &&& final(schedule).peak_cache_bytes <= limits.base_cache_bytes
                &&& final(schedule).cached(graph.dependencies@, past.push(results@))
                &&& final(schedule).peak_cache_bytes == if before.peak_cache_bytes
                    < final(schedule).cache_bytes {
                    final(schedule).cache_bytes
                } else {
                    before.peak_cache_bytes
                }
            },
            Err(error) => {
                ||| error == ParallelValidationError::ExecutorContract && contract_broken(
                    rows@,
                    tasks,
                    results@,
                )
                ||| error == ParallelValidationError::BaseCache && bases_refused(
                    rows@,
                    graph.dependencies@,
                    costs@,
                    limits,
                    waves.push(tasks),
                    past.push(results@),
                )
                ||| error == ParallelValidationError::DeltaDepth && depth_unexpected(
                    tasks,
                    results@,
                    limits.receive.max_delta_depth,
                )
                ||| error is Entry && lowest_rejection(results@, error->index, error->failure)
            },
        },
{
    let ghost outcomes = results@;
    let ghost dependencies = graph.dependencies@;
    let rows_count: usize = rows.len();
    let ordered = verify_results(results, selected)?;
    proof {
        lemma_verified(outcomes, selected@, ordered@);
    }
    if let Some((index, failure)) = first_rejection(&ordered) {
        proof {
            let k = choose|k: int|
                0 <= k < ordered@.len() && (#[trigger] ordered@[k]).index == index
                    && ordered@[k].result == Err::<
                    ParallelValidationTaskOutput<B, M>,
                    ParallelValidationTaskFailure,
                >(failure);
            assert(outcomes.contains(ordered@[k]));
            let r = choose|r: int| 0 <= r < outcomes.len() && outcomes[r] == ordered@[k];
            assert(outcomes[r].index == index);
            assert forall|r: int|
                0 <= r < outcomes.len() && (#[trigger] outcomes[r]).result is Err implies index
                <= outcomes[r].index by {
                assert(ordered@.contains(outcomes[r]));
                let j = choose|j: int| 0 <= j < ordered@.len() && ordered@[j] == outcomes[r];
                assert(ordered@[j].result is Err);
            }
            assert(lowest_rejection(outcomes, index, failure));
        }
        return Err(ParallelValidationError::Entry { index, failure });
    }
    let ghost sorted = ordered@;
    proof {
        assert forall|k: int| 0 <= k < sorted.len() implies (#[trigger] sorted[k]).index
            < rows@.len() && runnable(before.metadata@, dependencies, sorted[k].index as int) by {
            assert(selected@.contains(sorted[k].index));
            let s = choose|s: int| 0 <= s < selected@.len() && selected@[s] == sorted[k].index;
            assert(selected@[s] < rows@.len());
        }
    }
    let retained = match schedule.settle(ordered, rows, graph, limits.receive.max_delta_depth) {
        Ok(retained) => retained,
        Err(error) => {
            proof {
                if error == ParallelValidationError::DeltaDepth {
                    let k = choose|k: int|
                        0 <= k < sorted.len() && ((#[trigger] sorted[k]).result->Ok_0.delta_depth
                            > limits.receive.max_delta_depth || !depth_follows(
                            dependencies,
                            before.depths@,
                            sorted[k].index as int,
                            sorted[k].result->Ok_0.delta_depth,
                        ));
                    assert(outcomes.contains(sorted[k]));
                    let x = choose|x: int| 0 <= x < outcomes.len() && outcomes[x] == sorted[k];
                    let t = choose|t: int|
                        0 <= t < selected@.len() && selected@[t] == sorted[k].index;
                    assert(task_planned(
                        tasks[t],
                        selected@[t],
                        rows@,
                        dependencies,
                        totals,
                        before.depths@,
                        limits.receive.max_delta_depth,
                    ));
                    assert(outcomes[x].index == tasks[t].index);
                    assert(depth_unexpected(tasks, outcomes, limits.receive.max_delta_depth));
                }
            }
            return Err(error);
        },
    };
    let ghost list = retained@;
    let ghost middle = schedule.cache@;
    proof {
        selected@.lemma_multiset_has_no_duplicates();
        tags(outcomes).lemma_multiset_has_no_duplicates_conv();
        lemma_recorded(
            before,
            *schedule,
            rows@,
            dependencies,
            totals,
            limits.receive.max_delta_depth,
            waves,
            past,
            selected@,
            tasks,
            outcomes,
            sorted,
        );
        let after = schedule.metadata@;
        assert forall|x: usize| #[trigger] selected@.contains(x) implies x < rows@.len()
            && runnable(before.metadata@, dependencies, x as int) && exists|k: int|
            0 <= k < list.len() && (#[trigger] list[k]).0 == x by {
            let s = choose|s: int| 0 <= s < selected@.len() && selected@[s] == x;
            assert(selected@[s] < rows@.len());
            assert(result_for(sorted, selected@[s]));
            let k = choose|k: int| 0 <= k < sorted.len() && (#[trigger] sorted[k]).index == x;
            assert(list[k].0 == x);
        }
        assert forall|x: usize| x < rows@.len() implies ((#[trigger] after[x as int]) is Some
            <==> before.metadata@[x as int] is Some || selected@.contains(x)) by {
            if selected@.contains(x) {
                let k = choose|k: int| 0 <= k < list.len() && (#[trigger] list[k]).0 == x;
                assert(sorted[k].index == x);
            } else {
                assert forall|k: int| 0 <= k < sorted.len() implies (#[trigger] sorted[k]).index
                    != x as int by {
                    assert(selected@.contains(sorted[k].index));
                }
            }
        }
        assert forall|k: int| 0 <= k < list.len() implies selected@.contains(
            (#[trigger] list[k]).0,
        ) && list[k].0 < rows@.len() && after[list[k].0 as int] is Some by {
            assert(selected@.contains(sorted[k].index));
        }
        assert forall|i: int, j: int|
            #![trigger list[i], list[j]]
            0 <= i < j < list.len() implies list[i].0 != list[j].0 by {
            assert(sorted[i].index < sorted[j].index);
        }
        lemma_waiting(
            before,
            after,
            schedule.ready@,
            rows@,
            dependencies,
            waves,
            past,
            selected@,
            list,
        );
    }
    proof {
        assert(wave_listed(before.metadata@, outcomes, list)) by {
            assert forall|k: int| 0 <= k < list.len() implies outcome_listed(
                outcomes,
                #[trigger] list[k],
            ) by {
                assert(outcomes.contains(sorted[k]));
                let r = choose|r: int| 0 <= r < outcomes.len() && outcomes[r] == sorted[k];
                assert(outcomes[r].index == list[k].0);
            }
            assert forall|r: int| 0 <= r < outcomes.len() implies (#[trigger] outcomes[r]).index
                < before.metadata@.len() && before.metadata@[outcomes[r].index as int] is None
                && listed(list, list.len() as int).contains(outcomes[r].index as int) by {
                assert(sorted.contains(outcomes[r]));
                let k = choose|k: int| 0 <= k < sorted.len() && sorted[k] == outcomes[r];
                assert(list[k].0 == outcomes[r].index);
            }
        }
        assert forall|k: int| 0 <= k < list.len() implies !ran_set(before.metadata@).contains(
            (#[trigger] list[k]).0 as int,
        ) by {
            assert(sorted[k].index == list[k].0);
        }
        assert forall|i: int| 0 <= i < rows@.len() implies ((#[trigger] schedule.metadata@[i]) is Some
            <==> before.metadata@[i] is Some || listed(list, list.len() as int).contains(i)) by {
            assert(schedule.metadata@[(i as usize) as int] is Some
                <==> before.metadata@[i] is Some || selected@.contains(i as usize));
            if selected@.contains(i as usize) {
                let k = choose|k: int| 0 <= k < list.len() && (#[trigger] list[k]).0 == i as usize;
                assert(list[k].0 == i);
            }
            if listed(list, list.len() as int).contains(i) {
                let k = choose|k: int| 0 <= k < list.len() && (#[trigger] list[k]).0 == i;
                assert(selected@.contains(list[k].0));
            }
        }
    }
    let kept = schedule.retain(
        retained,
        rows,
        graph,
        costs,
        limits.base_cache_bytes,
        Ghost(ran_set(before.metadata@)),
    );
    match kept {
        Ok(done) => {
            proof {
                assert(done == ());
                lemma_cached_next(
                    before,
                    middle,
                    *schedule,
                    dependencies,
                    past,
                    outcomes,
                    list,
                );
            }
            Ok(())
        },
        Err(error) => {
            proof {
                if error == ParallelValidationError::BaseCache {
                    let k = choose|k: int|
                        0 <= k < list.len() && #[trigger] base_refused(
                            *schedule,
                            dependencies,
                            costs@,
                            limits.base_cache_bytes,
                            ran_set(before.metadata@),
                            list,
                            k,
                        );
                    assert(outcomes.contains(sorted[k]));
                    let x = choose|x: int| 0 <= x < outcomes.len() && outcomes[x] == sorted[k];
                    assert(past.push(outcomes).last()[x].index == list[k].0);
                    if list[k].1 is Some && schedule.cache_bytes + list[k].1->0.bytes
                        > limits.base_cache_bytes {
                        assert forall|j: int|
                            0 <= j < rows@.len() && (#[trigger] base_at(dependencies, j)) is Some
                                && base_at(dependencies, j)->0 == list[k].0 implies schedule.metadata@[j] is None by {
                            assert(waits_on(dependencies, list, 0, (j as usize) as int));
                            assert(schedule.metadata@[(j as usize) as int] is None);
                        }
                        assert(!ran_set(before.metadata@).union(listed(list, k)).contains(
                            list[k].0 as int,
                        )) by {
                            if listed(list, k).contains(list[k].0 as int) {
                                let m = choose|m: int|
                                    0 <= m < k && (#[trigger] list[m]).0 == list[k].0;
                                assert(list[m].0 != list[k].0);
                            }
                        }
                        lemma_bases_overflow(
                            before,
                            middle,
                            *schedule,
                            rows@,
                            dependencies,
                            costs@,
                            limits.base_cache_bytes,
                            waves.push(tasks),
                            past,
                            outcomes,
                            list,
                            k,
                        );
                    }
                }
                if error == ParallelValidationError::ExecutorContract {
                    let k = choose|k: int|
                        0 <= k < list.len() && (#[trigger] list[k]).1 is Some && dependents_are(
                            rows@,
                            list[k].0 as int,
                            0,
                        );
                    assert(outcomes.contains(sorted[k]));
                    let x = choose|x: int| 0 <= x < outcomes.len() && outcomes[x] == sorted[k];
                    assert(outcomes[x].result->Ok_0.retained_base is Some);
                }
            }
            Err(error)
        },
    }
}

/// No more entries are ready than there are.
proof fn lemma_ready_bounded<B, M>(
    schedule: Schedule<B, M>,
    rows: Seq<PushPackIndexRow>,
    dependencies: Seq<ParallelValidationDependency>,
)
    requires
        schedule.ready_wf(rows, dependencies),
    ensures
        schedule.ready@.len() <= rows.len(),
{
    let ready = schedule.ready@;
    let indices = ready.map_values(|entry: (u64, usize)| entry.1);
    assert forall|i: int, j: int|
        0 <= i < indices.len() && 0 <= j < indices.len() && i != j implies indices[i]
        != indices[j] by {
        assert(ready[i].1 < rows.len());
        assert(ready[j].1 < rows.len());
    }
    assert forall|k: int| 0 <= k < indices.len() implies #[trigger] indices[k] < rows.len() by {
        assert(ready[k].1 < rows.len());
    }
    lemma_all_visited(indices, rows.len() as int, 0);
}

/// Waves with at least one task each hand over at least one entry each.
proof fn lemma_waves_counted<B>(waves: Seq<Seq<ParallelValidationTask<B>>>)
    requires
        forall|w: int| 0 <= w < waves.len() ==> (#[trigger] waves[w]).len() > 0,
    ensures
        waves.len() <= handed_indices(waves).len(),
    decreases waves.len(),
{
    if waves.len() > 0 {
        let earlier = waves.drop_last();
        assert forall|w: int| 0 <= w < earlier.len() implies (#[trigger] earlier[w]).len() > 0 by {
            assert(earlier[w] == waves[w]);
        }
        lemma_waves_counted(earlier);
        assert(waves[waves.len() - 1].len() > 0);
    }
}

/// Most units that one wave takes: one more than there are ready entries, one more when it is handed
/// over, and its bytes.
pub open spec fn wave_work(count: int, limits: ParallelValidationLimits) -> int {
    count + 2 + limits.receive.bytes_in_flight
}

/// Most units that validating an index of `count` rows takes: one at the start, three for every row,
/// and those of at most one wave for every row.
pub open spec fn index_work(count: int, limits: ParallelValidationLimits) -> int {
    1 + 3 * count + count * wave_work(count, limits)
}

/// Run one wave.
fn run_wave<
    E: ParallelValidationExecutor,
    C: PushPackValidationControl,
    W: ParallelValidationWork,
>(
    schedule: &mut Schedule<E::Base, E::Metadata>,
    progress: &mut Progress,
    executor: &mut E,
    control: &mut C,
    work: &mut W,
    checkpoints: &mut Checkpoints,
    rows: &[PushPackIndexRow],
    graph: &DependencyGraph,
    costs: &[ParallelValidationCost],
    totals: &Vec<u64>,
    limits: ParallelValidationLimits,
    Ghost(waves): Ghost<Seq<Seq<ParallelValidationTask<E::Base>>>>,
    Ghost(past): Ghost<Seq<Seq<ParallelValidationTaskResult<E::Base, E::Metadata>>>>,
) -> (result: Result<(), ParallelValidationError>)
    requires
        limits.valid(),
        graph.wf(rows@),
        acyclic(graph.dependencies@),
        costs@.len() == rows@.len(),
        totals@.len() == rows@.len(),
        forall|i: int|
            0 <= i < costs@.len() ==> (#[trigger] costs@[i]).charge() == totals@[i]
                && totals@[i] <= limits.hard_task_bytes,
        at_rest(
            *old(schedule),
            *old(progress),
            rows@,
            graph.dependencies@,
            costs@,
            limits,
            waves,
            past,
        ),
        old(progress).completed < rows@.len(),
        rows@.len() <= limits.receive.max_objects,
        old(checkpoints).known::<C>(),
        old(checkpoints).started_at == limits.started_at,
        old(checkpoints).deadline == limits.deadline,
    ensures
        final(checkpoints).known::<C>(),
        final(checkpoints).same_window(*old(checkpoints)),
        work_kept(
            old(work).allowance(),
            final(work).allowance(),
            result is Err && result->Err_0 == ParallelValidationError::WorkBudget,
            wave_work(rows@.len() as int, limits),
        ),
        match result {
            Ok(_) => {
                let tasks = final(executor).handed().last();
                let outcomes = final(executor).returned().last();
                &&& final(executor).handed() == old(executor).handed().push(tasks)
                &&& final(executor).deadlines() == old(executor).deadlines().push(limits.deadline)
                &&& final(executor).returned() == old(executor).returned().push(outcomes)
                &&& at_rest(
                    *final(schedule),
                    *final(progress),
                    rows@,
                    graph.dependencies@,
                    costs@,
                    limits,
                    waves.push(tasks),
                    past.push(outcomes),
                )
                &&& final(progress).completed > old(progress).completed
            },
            Err(error) => {
                let tasks = final(executor).handed().last();
                let handed = final(executor).handed() != old(executor).handed();
                &&& final(executor).deadlines() == if handed {
                    old(executor).deadlines().push(limits.deadline)
                } else {
                    old(executor).deadlines()
                }
                &&& handed ==> {
                    &&& final(executor).handed() == old(executor).handed().push(tasks)
                    &&& waves_sound(waves.push(tasks), rows@, graph.dependencies@, costs@, limits)
                }
                &&& final(executor).returned() != old(executor).returned() ==> {
                    &&& handed
                    &&& final(executor).returned() == old(executor).returned().push(
                        final(executor).returned().last(),
                    )
                }
                &&& wave_failed::<E, C, W>(
                    rows@,
                    costs@,
                    limits,
                    if handed {
                        waves.push(tasks)
                    } else {
                        waves
                    },
                    handed,
                    if final(executor).returned() == old(executor).returned() {
                        None
                    } else {
                        Some(final(executor).returned().last())
                    },
                    if final(executor).returned() == old(executor).returned() {
                        past
                    } else {
                        past.push(final(executor).returned().last())
                    },
                    error,
                )
            },
        },
{
    let ghost before = *schedule;
    let ghost dependencies = graph.dependencies@;
    let ghost handed_before = executor.handed();
    let ghost returned_before = executor.returned();
    let rows_count: usize = rows.len();
    proof {
        crate::push_metrics::law_valid_limits_are_bounded(limits.receive);
    }
    proof {
        lemma_ready_bounded(*schedule, rows@, dependencies);
        lemma_ready_counted(*schedule, rows@, dependencies, waves, past);
        lemma_bases_held(*schedule, rows@, dependencies, waves, past, rows@.len() as int);
        assert(graph_resolved(rows@, dependencies));
        assert forall|w: int| 0 <= w < waves.len() implies (#[trigger] waves[w]).len() > 0 by {
            assert(wave_sound(waves.take(w), waves[w], rows@, dependencies, costs@, limits));
        }
        lemma_waves_counted(waves);
    }
    let units: u64 = match (schedule.ready.len() as u64).checked_add(1) {
        Some(units) => units,
        None => {
            return Err(ParallelValidationError::WorkBudget);
        },
    };
    checkpoints.pass(control, work, units)?;
    let available_bytes: u64 = match limits.receive.bytes_in_flight.checked_sub(
        schedule.cache_bytes,
    ) {
        Some(bytes) => bytes,
        None => {
            return Err(ParallelValidationError::BaseCache);
        },
    };
    let bounds = WaveBounds {
        worker_count: limits.worker_count,
        range_concurrency: limits.range_concurrency,
        wave_bytes: limits.wave_bytes,
        available_bytes,
    };
    let selected = select_wave(&schedule.ready, costs, totals, &graph.dependencies, bounds);
    proof {
        law_wave_keeps_bounds(before.ready@, costs@, dependencies, bounds);
        lemma_ready_left(before, rows@, dependencies, waves, past);
        if waves.len() == 0 {
            assert(before.ready@[0].1 < rows@.len());
            assert(costs@[before.ready@[0].1 as int].charge() <= bounds.available_bytes);
        }
        lemma_fits_within(selected@, costs@, dependencies, bounds, run_bounds(limits));
        assert forall|k: int| 0 <= k < selected@.len() implies #[trigger] selected@[k] < rows@.len()
            && runnable(before.metadata@, dependencies, selected@[k] as int) by {
            assert(ready_index(before.ready@, selected@[k]));
            let j = choose|j: int|
                0 <= j < before.ready@.len() && (#[trigger] before.ready@[j]).1 == selected@[k];
            assert(before.ready@[j].1 < rows@.len());
        }
    }
    if selected.len() == 0 {
        proof {
            if before.ready@.len() > 0 {
                let i = before.ready@[0].1 as int;
                assert(i < rows@.len());
                assert(costs@[i].charge() > bounds.available_bytes);
                let entry = before.ready@[0].1;
                assert(ready_index(before.ready@, entry));
                assert(runnable(before.metadata@, dependencies, i));
                assert(dependency_fits(rows@, i, dependencies[i]));
                assert(may_run(waves, dependencies, entry));
            }
        }
        return Err(
            if schedule.ready.len() == 0 {
                ParallelValidationError::DependencyCycle
            } else {
                ParallelValidationError::TaskTooLarge
            },
        );
    }
    proof {
        assert forall|k: int|
            0 <= k < selected@.len() && base_at(
                dependencies,
                #[trigger] selected@[k] as int,
            ) is Some implies before.cache@[base_at(
            dependencies,
            selected@[k] as int,
        )->0 as int] is Some by {
            let i = selected@[k] as int;
            let base = base_at(dependencies, i)->0 as int;
            assert(runnable(before.metadata@, dependencies, i));
            assert(dependency_fits(rows@, i, dependencies[i]));
            lemma_unrun_some(dependencies, before.metadata@, base, rows@.len() as int);
            assert(slot_waits(
                before.cache@[base],
                ran_set(before.metadata@).contains(base),
                unrun(dependencies, before.metadata@, base, rows@.len() as int),
            ));
        }
    }
    let tasks = match schedule.plan_tasks(
        rows,
        graph,
        totals,
        &selected,
        limits.receive.max_delta_depth,
    ) {
        Ok(tasks) => tasks,
        Err(error) => {
            proof {
                let k = choose|k: int|
                    0 <= k < selected@.len() && base_at(
                        dependencies,
                        #[trigger] selected@[k] as int,
                    ) is Some && base_too_deep(
                        before.depths@,
                        base_at(dependencies, selected@[k] as int)->0,
                        limits.receive.max_delta_depth,
                    );
                let base = base_at(dependencies, selected@[k] as int)->0;
                assert(dependency_fits(
                    rows@,
                    selected@[k] as int,
                    dependencies[selected@[k] as int],
                ));
                assert(before.metadata@[base as int] is Some);
                assert(handed_indices(waves).contains(base));
                assert(waves.len() > 0);
                assert(depth_handed(waves, base, before.depths@[base as int]->0 as int));
                assert(graph_resolved(rows@, dependencies));
                assert(chain_too_deep(rows@, waves, limits.receive.max_delta_depth));
            }
            return Err(error);
        },
    };
    let ghost planned = tasks@;
    proof {
        lemma_wave_planned(
            before,
            rows@,
            dependencies,
            costs@,
            totals@,
            limits,
            waves,
            past,
            selected@,
            planned,
        );
    }
    let wave_bytes: u64 = wave_total(&selected, totals, Ghost(costs@));
    let kept = drop_selected(&schedule.ready, &selected);
    proof {
        assert forall|k: int| 0 <= k < kept@.len() implies {
            &&& (#[trigger] kept@[k]).1 < rows@.len()
            &&& kept@[k].0 == rows@[kept@[k].1 as int].entry.offset
        } by {
            let j = choose|j: int| 0 <= j < before.ready@.len() && before.ready@[j] == kept@[k];
            assert(before.ready@[j].1 < rows@.len());
        }
    }
    schedule.ready = kept;
    if tasks.len() > progress.peak_tasks {
        progress.peak_tasks = tasks.len();
    }
    if wave_bytes > progress.peak_wave_bytes {
        progress.peak_wave_bytes = wave_bytes;
    }
    progress.waves = match progress.waves.checked_add(1) {
        Some(waves) => waves,
        None => {
            return Err(ParallelValidationError::WorkBudget);
        },
    };
    checkpoints.pass(control, work, 1)?;
    let outcome = executor.execute_wave(tasks, limits.deadline);
    proof {
        assert(executor.handed().last() == planned);
        assert(executor.handed().len() != handed_before.len());
    }
    checkpoints.pass(
        control,
        work,
        if wave_bytes == 0 {
            1
        } else {
            wave_bytes
        },
    )?;
    let results = match outcome {
        Ok(results) => results,
        Err(error) => {
            return Err(map_executor_error(error));
        },
    };
    proof {
        assert(executor.returned().last() == results@);
        assert(executor.returned().len() != returned_before.len());
    }
    absorb(
        schedule,
        results,
        &selected,
        rows,
        graph,
        costs,
        limits,
        Ghost(before),
        Ghost(totals@),
        Ghost(waves),
        Ghost(past),
        Ghost(planned),
    )?;
    proof {
        let all = handed_indices(waves.push(planned));
        assert forall|k: int| 0 <= k < all.len() implies #[trigger] all[k] < rows@.len() by {
            if k >= handed_indices(waves).len() {
                assert(all[k] == selected@[k - handed_indices(waves).len()]);
            } else {
                lemma_handed_in_range(waves, rows@, dependencies, costs@, limits, k);
                assert(all[k] == handed_indices(waves)[k]);
            }
        }
        lemma_all_visited(all, rows@.len() as int, 0);
        assert(waves.push(planned).drop_last() =~= waves);
        let returned = executor.returned().last();
        assert(past.push(returned).drop_last() =~= past);
        lemma_bases_held(
            *schedule,
            rows@,
            dependencies,
            waves.push(planned),
            past.push(returned),
            rows@.len() as int,
        );
    }
    progress.completed = progress.completed + selected.len();
    Ok(())
}

/// What was handed over is in range.
proof fn lemma_handed_in_range<B>(
    waves: Seq<Seq<ParallelValidationTask<B>>>,
    rows: Seq<PushPackIndexRow>,
    dependencies: Seq<ParallelValidationDependency>,
    costs: Seq<ParallelValidationCost>,
    limits: ParallelValidationLimits,
    k: int,
)
    requires
        forall|w: int|
            0 <= w < waves.len() ==> wave_sound(
                waves.take(w),
                #[trigger] waves[w],
                rows,
                dependencies,
                costs,
                limits,
            ),
        0 <= k < handed_indices(waves).len(),
    ensures
        handed_indices(waves)[k] < rows.len(),
    decreases waves.len(),
{
    let front = waves.drop_last();
    if k < handed_indices(front).len() {
        assert forall|w: int| 0 <= w < front.len() implies wave_sound(
            front.take(w),
            #[trigger] front[w],
            rows,
            dependencies,
            costs,
            limits,
        ) by {
            assert(front.take(w) =~= waves.take(w));
            assert(front[w] == waves[w]);
        }
        lemma_handed_in_range(front, rows, dependencies, costs, limits, k);
    } else {
        let j = k - handed_indices(front).len();
        let last = waves.last();
        assert(wave_sound(
            waves.take(waves.len() - 1),
            waves[waves.len() - 1],
            rows,
            dependencies,
            costs,
            limits,
        ));
        assert(wave_indices(last)[j] == last[j].index);
        assert(task_sound(
            waves.take(waves.len() - 1),
            last[j],
            rows,
            dependencies,
            costs,
            limits,
        ));
    }
}

/// What is wrong with a run before anything is observed.
pub open spec fn preflight_fault<B, M>(
    rows: Seq<PushPackIndexRow>,
    costs: Seq<ParallelValidationCost>,
    limits: ParallelValidationLimits,
) -> Option<ParallelValidationError> {
    if !limits.valid() {
        Some(ParallelValidationError::InvalidLimits)
    } else if rows.len() != costs.len() || rows.len() > limits.receive.max_objects {
        Some(ParallelValidationError::InvalidCost)
    } else if scheduler_bytes::<B, M>(rows.len() as int, costs, limits.worker_count as int)
        > limits.receive.max_metadata_memory_bytes {
        Some(ParallelValidationError::SchedulerMemory)
    } else {
        None
    }
}

/// Why a run fails, given what it handed over and what was returned.
pub open spec fn run_failed<
    E: ParallelValidationExecutor,
    C: PushPackValidationControl,
    W: ParallelValidationWork,
>(
    rows: Seq<PushPackIndexRow>,
    costs: Seq<ParallelValidationCost>,
    limits: ParallelValidationLimits,
    waves: Seq<Seq<ParallelValidationTask<E::Base>>>,
    results: Seq<Seq<ParallelValidationTaskResult<E::Base, E::Metadata>>>,
    error: ParallelValidationError,
) -> bool {
    match preflight_fault::<E::Base, E::Metadata>(rows, costs, limits) {
        Some(fault) => error == fault && waves.len() == 0,
        None => {
            ||| graph_fault::<C, W>(rows, limits.started_at, limits.deadline, error) && waves.len() == 0
            ||| first_cost_fault(costs, limits.hard_task_bytes, error) && waves.len() == 0
            ||| waves.len() == results.len() && wave_failed::<E, C, W>(
                rows,
                costs,
                limits,
                waves,
                false,
                None,
                results,
                error,
            )
            ||| waves.len() == results.len() + 1 && wave_failed::<E, C, W>(
                rows,
                costs,
                limits,
                waves,
                true,
                None,
                results,
                error,
            )
            ||| waves.len() > 0 && waves.len() == results.len() && wave_failed::<E, C, W>(
                rows,
                costs,
                limits,
                waves,
                true,
                Some(results.last()),
                results,
                error,
            )
        },
    }
}

/// A run is complete: every entry was validated once, behind its base, and its metadata returned.
pub open spec fn run_complete<B, M>(
    rows: Seq<PushPackIndexRow>,
    costs: Seq<ParallelValidationCost>,
    limits: ParallelValidationLimits,
    waves: Seq<Seq<ParallelValidationTask<B>>>,
    results: Seq<Seq<ParallelValidationTaskResult<B, M>>>,
    report: ParallelValidationReport<M>,
) -> bool {
    &&& preflight_fault::<B, M>(rows, costs, limits) is None
    &&& rows_distinct(rows)
    &&& forall|i: int|
        0 <= i < costs.len() ==> cost_fault(#[trigger] costs[i], limits.hard_task_bytes) is None
    &&& handed_indices(waves).len() == rows.len()
    &&& forall|i: usize| i < rows.len() ==> #[trigger] handed_indices(waves).contains(i)
    &&& report.metadata@.len() == rows.len()
    &&& forall|i: int|
        0 <= i < rows.len() ==> output_returned(results, i, #[trigger] report.metadata@[i])
    &&& results.len() == waves.len()
    &&& report.waves == waves.len()
    &&& report.peak_tasks == most_tasks(waves)
    &&& report.peak_wave_bytes == most_bytes(waves, costs)
    &&& peak_kept(rows, waves, results, report.peak_base_cache_bytes as int)
    &&& report.peak_base_cache_bytes <= limits.base_cache_bytes
}

/// Validate an index in bounded waves.
///
/// Rows are never reordered: results are accepted in any order, checked for exact identity, and
/// reported by input index. When several tasks of a wave are rejected, the lowest index is
/// reported.
pub fn validate_index_parallel<
    E: ParallelValidationExecutor,
    C: PushPackValidationControl,
    W: ParallelValidationWork,
>(
    rows: &[PushPackIndexRow],
    costs: &[ParallelValidationCost],
    executor: &mut E,
    control: &mut C,
    work: &mut W,
    limits: ParallelValidationLimits,
) -> (result: Result<ParallelValidationReport<E::Metadata>, ParallelValidationError>)
    ensures
        old(executor).handed().is_prefix_of(final(executor).handed()),
        old(executor).returned().is_prefix_of(final(executor).returned()),
        final(executor).deadlines() == old(executor).deadlines() + Seq::new(
            (final(executor).handed().len() - old(executor).handed().len()) as nat,
            |w: int| limits.deadline,
        ),
        schedule_sound(
            final(executor).handed().skip(old(executor).handed().len() as int),
            rows@,
            costs@,
            limits,
        ),
        work_kept(
            old(work).allowance(),
            final(work).allowance(),
            result is Err && result->Err_0 == ParallelValidationError::WorkBudget,
            index_work(rows@.len() as int, limits),
        ),
        match result {
            Ok(report) => run_complete(
                rows@,
                costs@,
                limits,
                final(executor).handed().skip(old(executor).handed().len() as int),
                final(executor).returned().skip(old(executor).returned().len() as int),
                report,
            ),
            Err(error) => run_failed::<E, C, W>(
                rows@,
                costs@,
                limits,
                final(executor).handed().skip(old(executor).handed().len() as int),
                final(executor).returned().skip(old(executor).returned().len() as int),
                error,
            ),
        },
{
    let ghost handed_before = executor.handed();
    let ghost returned_before = executor.returned();
    let ghost deadlines_before = executor.deadlines();
    proof {
        assert(deadlines_before =~= deadlines_before + Seq::new(0, |w: int| limits.deadline));
        assert(handed_before.skip(handed_before.len() as int) =~= Seq::empty());
        assert(returned_before.skip(returned_before.len() as int) =~= Seq::empty());
    }
    if let Err(error) = limits.validate() {
        return Err(error);
    }
    if rows.len() != costs.len() || rows.len() > limits.receive.max_objects {
        return Err(ParallelValidationError::InvalidCost);
    }
    if let Err(error) = validate_scheduler_memory::<E::Base, E::Metadata>(
        rows.len(),
        costs,
        limits.worker_count,
        limits.receive.max_metadata_memory_bytes,
    ) {
        return Err(error);
    }
    let mut checkpoints = Checkpoints {
        started_at: limits.started_at,
        deadline: limits.deadline,
        last_observed_at: limits.started_at,
    };
    checkpoints.pass(control, work, 1)?;
    let graph = build_dependency_graph(rows, control, work, &mut checkpoints)?;
    let totals = match validate_costs(costs, limits.hard_task_bytes) {
        Ok(totals) => totals,
        Err(error) => {
            return Err(error);
        },
    };
    let ghost dependencies = graph.dependencies@;
    let ghost mut waves: Seq<Seq<ParallelValidationTask<E::Base>>> = Seq::empty();
    let ghost mut past: Seq<Seq<ParallelValidationTaskResult<E::Base, E::Metadata>>> =
        Seq::empty();
    let mut schedule: Schedule<E::Base, E::Metadata> = Schedule::new(rows, &graph);
    let mut progress = Progress { completed: 0, waves: 0, peak_tasks: 0, peak_wave_bytes: 0 };
    proof {
        assert(handed_indices(waves) =~= Seq::<usize>::empty());
        assert(waves_sound(waves, rows@, dependencies, costs@, limits));
        assert(executor.handed() =~= handed_before + waves);
        assert(executor.returned() =~= returned_before + past);
        assert forall|i: int| 0 <= i < costs@.len() implies (#[trigger] costs@[i]).charge()
            == totals@[i] && totals@[i] <= limits.hard_task_bytes by {
            assert(cost_fault(costs@[i], limits.hard_task_bytes) is None);
        }
    }
    let total: usize = rows.len();
    let ghost share = wave_work(total as int, limits);
    proof {
        assert(0 * share == 0) by (nonlinear_arith);
        assert(total * share >= 0) by (nonlinear_arith)
            requires
                total >= 0,
                share >= 0,
        ;
    }
    while progress.completed < total
        invariant
            share == wave_work(total as int, limits),
            progress.completed <= total,
            work_kept(
                old(work).allowance(),
                work.allowance(),
                false,
                1 + 3 * total + progress.completed * share,
            ),
            checkpoints.known::<C>(),
            checkpoints.started_at == limits.started_at,
            checkpoints.deadline == limits.deadline,
            total == rows@.len(),
            rows@.len() <= limits.receive.max_objects,
            preflight_fault::<E::Base, E::Metadata>(rows@, costs@, limits) is None,
            rows_distinct(rows@),
            forall|i: int|
                0 <= i < costs@.len() ==> cost_fault(
                    #[trigger] costs@[i],
                    limits.hard_task_bytes,
                ) is None,
            graph.wf(rows@),
            dependencies == graph.dependencies@,
            acyclic(dependencies),
            costs@.len() == rows@.len(),
            totals@.len() == rows@.len(),
            forall|i: int|
                0 <= i < costs@.len() ==> (#[trigger] costs@[i]).charge() == totals@[i]
                    && totals@[i] <= limits.hard_task_bytes,
            at_rest(
                schedule,
                progress,
                rows@,
                dependencies,
                costs@,
                limits,
                waves,
                past,
            ),
            executor.handed() == handed_before + waves,
            executor.returned() == returned_before + past,
            executor.deadlines() == deadlines_before + Seq::new(
                waves.len(),
                |w: int| limits.deadline,
            ),
            deadlines_before == old(executor).deadlines(),
            handed_before == old(executor).handed(),
            returned_before == old(executor).returned(),
        decreases total - progress.completed,
    {
        let ghost done = progress.completed as int;
        let outcome = run_wave(
            &mut schedule,
            &mut progress,
            executor,
            control,
            work,
            &mut checkpoints,
            rows,
            &graph,
            costs,
            &totals,
            limits,
            Ghost(waves),
            Ghost(past),
        );
        proof {
            let tasks = executor.handed().last();
            let outcomes = executor.returned().last();
            let since = executor.handed().skip(handed_before.len() as int);
            let answers = executor.returned().skip(returned_before.len() as int);
            if executor.handed() == handed_before + waves {
                assert(since =~= waves);
            }
            if executor.handed() == (handed_before + waves).push(tasks) {
                assert(since =~= waves.push(tasks));
                assert((deadlines_before + Seq::new(waves.len(), |w: int| limits.deadline)).push(
                    limits.deadline,
                ) =~= deadlines_before + Seq::new(since.len(), |w: int| limits.deadline));
                assert(executor.handed() =~= handed_before + waves.push(tasks));
            }
            if executor.returned() == returned_before + past {
                assert(answers =~= past);
            }
            if executor.returned() == (returned_before + past).push(outcomes) {
                assert(answers =~= past.push(outcomes));
                assert(executor.returned() =~= returned_before + past.push(outcomes));
            }
            assert(waves_sound(since, rows@, dependencies, costs@, limits));
            assert(graph_resolved(rows@, dependencies));
            assert(schedule_sound(since, rows@, costs@, limits));
            waves = since;
            past = answers;
        }
        proof {
            assert((done + 1) * share == done * share + share) by (nonlinear_arith);
            assert((done + 1) * share <= total * share) by (nonlinear_arith)
                requires
                    done + 1 <= total,
                    share >= 0,
            ;
        }
        outcome?;
        proof {
            let now = progress.completed as int;
            assert((done + 1) * share <= now * share) by (nonlinear_arith)
                requires
                    done + 1 <= now,
                    share >= 0,
            ;
            let all = handed_indices(waves);
            assert forall|k: int| 0 <= k < all.len() implies #[trigger] all[k] < rows@.len() by {
                lemma_handed_in_range(waves, rows@, dependencies, costs@, limits, k);
            }
            lemma_all_visited(all, rows@.len() as int, 0);
        }
    }
    proof {
        let now = progress.completed as int;
        assert(now * share <= total * share) by (nonlinear_arith)
            requires
                now <= total,
                share >= 0,
        ;
        let all = handed_indices(waves);
        assert forall|k: int| 0 <= k < all.len() implies #[trigger] all[k] < rows@.len() by {
            lemma_handed_in_range(waves, rows@, dependencies, costs@, limits, k);
        }
        assert forall|i: usize| i < rows@.len() implies #[trigger] all.contains(i) by {
            lemma_all_visited(all, rows@.len() as int, i as int);
        }
        lemma_all_visited(all, rows@.len() as int, 0);
        assert(executor.handed().skip(handed_before.len() as int) =~= waves);
        assert(executor.returned().skip(returned_before.len() as int) =~= past);
        assert(graph_resolved(rows@, dependencies));
        assert(schedule_sound(waves, rows@, costs@, limits));
    }
    let ghost recorded = schedule.metadata@;
    proof {
        assert forall|i: int| 0 <= i < total implies (#[trigger] recorded[i]) is Some
            && output_returned(past, i, recorded[i]->0) by {
            assert(handed_indices(waves).contains(i as usize));
        }
    }
    let peak_base_cache_bytes: u64 = schedule.peak_cache_bytes;
    let metadata = schedule.metadata;
    let mut ordered: Vec<E::Metadata> = Vec::new();
    for item in walk: metadata.into_iter()
        invariant
            walk.seq() == recorded,
            recorded.len() == total,
            ordered@.len() == walk.index(),
            forall|i: int|
                0 <= i < total ==> (#[trigger] recorded[i]) is Some && output_returned(
                    past,
                    i,
                    recorded[i]->0,
                ),
            forall|i: int|
                0 <= i < ordered@.len() ==> output_returned(past, i, #[trigger] ordered@[i]),
    {
        assert(recorded[walk.index() as int] is Some);
        match item {
            Some(item) => {
                ordered.push(item);
            },
            None => {
                return Err(ParallelValidationError::ExecutorContract);
            },
        }
    }
    Ok(
        ParallelValidationReport {
            metadata: ordered,
            waves: progress.waves,
            peak_tasks: progress.peak_tasks,
            peak_wave_bytes: progress.peak_wave_bytes,
            peak_base_cache_bytes,
        },
    )
}

} // verus!
