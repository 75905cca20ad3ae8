//! Fair, bounded push admission and phase orchestration.
//!
//! The queue state changes in short steps that need no controller. A poll selects one request,
//! offers it to the shared controller, and finishes the offer by what the controller decided and by
//! what the push-only backend capacity allows. A granted push runs through ordered phases until its
//! permit records one terminal outcome.

use crate::admission::{
    actor_fits, aged_cost, aged_units, asked, check_actor, is_overdue, moved_back, overdue,
    repository_scope, tenant_scope, text_bytes, time_moved_back, waited_nanos,
    settled, AdmissionConfigError, AdmissionController, AdmissionDecision, AdmissionExchange,
    AdmissionIdentity, AdmissionOutcome, AdmissionRejectReason, AdmissionRequest, ResourceClass,
    ResourceWeights, RetryGuidance,
};
use crate::budget::{short_of, spends, spent_within};
use crate::clock::{Duration, Timestamp};
use crate::fair_queue::{
    charged, covers, credit_after, credit_bounded, credited, debited, discharged,
    lemma_credit_keeps_bounds, lemma_discharge_keeps_bounds, lemma_rotated, offer_ended,
    quota_kept, refunded, rotated, scope_matches, slot_charges, usage_of, FairQueue, QueueSlot,
    ScopeKey, ScopeMap, ScopeQuota, ScopeUsage,
};
use crate::push_metrics::ReceivePackLimits;
use vstd::prelude::*;

verus! {

/// Stable scheduler-local push ticket.
#[derive(Clone, Copy, Debug, PartialEq, Eq, Structural)]
pub struct PushAdmissionTicket {
    /// Sequence value.
    pub value: u64,
}

impl PushAdmissionTicket {
    /// Return the sequence value.
    pub fn get(self) -> (value: u64)
        ensures
            value == self.value,
    {
        self.value
    }
}

/// Predicted resource demand of one push.
#[derive(Clone, Copy, Debug, PartialEq, Eq, Structural)]
pub struct PushAdmissionCost {
    /// Incoming compressed PACK bytes.
    pub compressed_bytes: u64,
    /// Aggregate inflated bytes.
    pub inflated_bytes: u64,
    /// Peak retained delta-base bytes.
    pub base_bytes: u64,
    /// Peak structural and prepared metadata bytes.
    pub metadata_bytes: u64,
    /// Quarantine bytes.
    pub quarantine_bytes: u64,
    /// Validation work units.
    pub validation_work: u64,
    /// Expected SQL statements.
    pub sql_statements: u64,
    /// Expected SQL rows.
    pub sql_rows: u64,
    /// Expected external requests.
    pub external_requests: u64,
    /// Expected external bytes.
    pub external_bytes: u64,
    /// Validation workers.
    pub workers: usize,
    /// Concurrent range requests.
    pub range_concurrency: usize,
    /// Concurrent multipart uploads.
    pub multipart_concurrency: usize,
    /// Service units.
    pub fair_service_units: u64,
}

/// Push scheduling failure.
#[derive(Clone, Copy, Debug, PartialEq, Eq, Structural)]
pub enum PushAdmissionError {
    /// Identity, timing or retained shape is invalid.
    InvalidRequest,
    /// The cost is zero, overflows, or exceeds a limit.
    InvalidCost,
    /// Queue limits are inconsistent.
    InvalidQueueLimits,
    /// A queue bound is reached.
    QueueFull,
    /// Memory for the scheduler is short.
    Allocation,
    /// Tickets are exhausted.
    TicketOverflow,
    /// The controller refused a submission.
    Admission(AdmissionConfigError),
    /// The scan budget is exhausted.
    WorkBudget,
    /// Cancellation won before publication.
    Cancelled,
    /// Observed time or logical round moved backwards.
    NonMonotonicObservation,
    /// A phase transition is invalid.
    InvalidPhase,
    /// The deadline elapsed before publication.
    Deadline,
}

impl PushAdmissionCost {
    /// The memory weight.
    pub open spec fn memory_weight(self) -> int {
        self.inflated_bytes + self.base_bytes + self.metadata_bytes + self.quarantine_bytes
    }

    /// No weight overflows.
    pub open spec fn weights_fit(self) -> bool {
        &&& self.memory_weight() <= u64::MAX
        &&& self.compressed_bytes + self.external_bytes <= u64::MAX
        &&& self.sql_statements + self.sql_rows <= u64::MAX
    }

    /// The capacity that the push takes.
    pub open spec fn spec_weights(self) -> ResourceWeights {
        ResourceWeights {
            slots: 1,
            memory_bytes: self.memory_weight() as u64,
            io_bytes: (self.compressed_bytes + self.external_bytes) as u64,
            cpu_units: self.validation_work,
            sql_units: (self.sql_statements + self.sql_rows) as u64,
            s3_units: self.external_requests,
        }
    }

    /// Return the capacity that the push takes.
    pub fn weights(self) -> (result: Result<ResourceWeights, PushAdmissionError>)
        ensures
            result == if self.weights_fit() {
                Ok::<ResourceWeights, PushAdmissionError>(self.spec_weights())
            } else {
                Err(PushAdmissionError::InvalidCost)
            },
    {
        let memory: u128 = self.inflated_bytes as u128 + self.base_bytes as u128
            + self.metadata_bytes as u128 + self.quarantine_bytes as u128;
        let io: u128 = self.compressed_bytes as u128 + self.external_bytes as u128;
        let sql: u128 = self.sql_statements as u128 + self.sql_rows as u128;
        let most: u128 = u64::MAX as u128;
        if memory > most || io > most || sql > most {
            return Err(PushAdmissionError::InvalidCost);
        }
        Ok(
            ResourceWeights {
                slots: 1,
                memory_bytes: memory as u64,
                io_bytes: io as u64,
                cpu_units: self.validation_work,
                sql_units: sql as u64,
                s3_units: self.external_requests,
            },
        )
    }

    /// The cost is positive where it must be and within the receive-pack limits.
    pub open spec fn valid(self, limits: ReceivePackLimits) -> bool {
        &&& self.compressed_bytes <= limits.max_pack_bytes
        &&& self.inflated_bytes <= limits.max_inflated_bytes
        &&& self.base_bytes <= limits.max_delta_base_memory_bytes
        &&& self.metadata_bytes <= limits.max_metadata_memory_bytes
        &&& self.quarantine_bytes <= limits.max_request_bytes
        &&& self.validation_work > 0
        &&& self.sql_statements <= limits.max_sql_statements
        &&& self.sql_rows <= limits.max_objects
        &&& self.external_requests <= limits.max_external_operations
        &&& self.external_bytes <= limits.max_request_bytes
        &&& 0 < self.range_concurrency <= limits.max_range_operations
        &&& 0 < self.workers <= limits.worker_count
        &&& self.multipart_concurrency > 0
        &&& self.fair_service_units > 0
        &&& self.weights_fit()
    }

    /// Validate a cost against the receive-pack limits.
    pub fn validate(self, limits: ReceivePackLimits) -> (result: Result<Self, PushAdmissionError>)
        ensures
            result == if self.valid(limits) {
                Ok::<Self, PushAdmissionError>(self)
            } else {
                Err(PushAdmissionError::InvalidCost)
            },
    {
        if self.compressed_bytes > limits.max_pack_bytes || self.inflated_bytes
            > limits.max_inflated_bytes || self.base_bytes > limits.max_delta_base_memory_bytes
            || self.metadata_bytes > limits.max_metadata_memory_bytes || self.quarantine_bytes
            > limits.max_request_bytes || self.validation_work == 0 || self.sql_statements
            > limits.max_sql_statements || self.sql_rows > limits.max_objects as u64
            || self.external_requests > limits.max_external_operations || self.external_bytes
            > limits.max_request_bytes || self.range_concurrency as u64
            > limits.max_range_operations || self.workers == 0 || self.workers
            > limits.worker_count || self.range_concurrency == 0 || self.multipart_concurrency == 0
            || self.fair_service_units == 0 {
            return Err(PushAdmissionError::InvalidCost);
        }
        match self.weights() {
            Ok(_) => Ok(self),
            Err(error) => Err(error),
        }
    }
}

/// Push admission request, made before any input.
#[derive(Debug)]
pub struct PushAdmissionRequest {
    /// Who asks.
    pub identity: AdmissionIdentity,
    /// Predicted demand.
    pub cost: PushAdmissionCost,
    /// Bytes retained while waiting.
    pub queued_bytes: u64,
    /// Submission time.
    pub submitted_at: Timestamp,
    /// Deadline.
    pub deadline: Timestamp,
    /// Estimated service time.
    pub service_estimate: Duration,
    /// Receive-pack limits.
    pub receive_limits: ReceivePackLimits,
}

/// Bytes that the record of a waiting push takes at least.
pub open spec fn record_bytes(identity: AdmissionIdentity) -> nat {
    vstd::layout::size_of::<QueueSlot<PushAdmissionRequest>>() + vstd::utf8::encode_utf8(
        identity.tenant@,
    ).len() + vstd::utf8::encode_utf8(identity.repository@).len() + vstd::utf8::encode_utf8(
        identity.actor@,
    ).len()
}

impl PushAdmissionRequest {
    /// Record and timing lie within the receive-pack limits.
    pub open spec fn shape_valid(self) -> bool {
        let limit = self.receive_limits.max_duration.nanos;
        &&& actor_fits(self.identity.actor@)
        &&& self.queued_bytes >= record_bytes(self.identity)
        &&& 0 < self.service_estimate.nanos <= limit
        &&& self.submitted_at.unix_nanos < self.deadline.unix_nanos
        &&& self.deadline.unix_nanos - self.submitted_at.unix_nanos <= limit
        &&& self.submitted_at.unix_nanos + self.service_estimate.nanos <= self.deadline.unix_nanos
    }

    /// Why the request is refused, if it is.
    pub open spec fn fault(self) -> Option<PushAdmissionError> {
        if self.receive_limits.fault() is Some {
            Some(PushAdmissionError::InvalidRequest)
        } else if !self.cost.valid(self.receive_limits) {
            Some(PushAdmissionError::InvalidCost)
        } else if !self.shape_valid() {
            Some(PushAdmissionError::InvalidRequest)
        } else {
            None
        }
    }

    /// Submission time and deadline are representable.
    pub open spec fn times_in_range(self) -> bool {
        self.submitted_at.in_range() && self.deadline.in_range()
    }

    /// Validate a request.
    pub fn validate(&self) -> (result: Result<(), PushAdmissionError>)
        requires
            self.times_in_range(),
        ensures
            result == match self.fault() {
                Some(error) => Err::<(), PushAdmissionError>(error),
                None => Ok(()),
            },
    {
        let limits = self.receive_limits;
        if limits.validate().is_err() {
            return Err(PushAdmissionError::InvalidRequest);
        }
        match self.cost.validate(limits) {
            Ok(_) => {},
            Err(error) => {
                return Err(error);
            },
        }
        let record: usize = std::mem::size_of::<QueueSlot<PushAdmissionRequest>>();
        let minimum: u128 = record as u128 + text_bytes(&self.identity.tenant.value) as u128
            + text_bytes(&self.identity.repository.value) as u128 + text_bytes(
            &self.identity.actor,
        ) as u128;
        if !check_actor(&self.identity.actor) || (self.queued_bytes as u128) < minimum
            || self.service_estimate.nanos == 0 || self.service_estimate.nanos
            > limits.max_duration.nanos || self.deadline.unix_nanos
            <= self.submitted_at.unix_nanos {
            return Err(PushAdmissionError::InvalidRequest);
        }
        let span: u128 = (self.deadline.unix_nanos - self.submitted_at.unix_nanos) as u128;
        if span > limits.max_duration.nanos {
            return Err(PushAdmissionError::InvalidRequest);
        }
        match self.submitted_at.checked_add(self.service_estimate) {
            Some(completion) => {
                if completion.unix_nanos > self.deadline.unix_nanos {
                    return Err(PushAdmissionError::InvalidRequest);
                }
                Ok(())
            },
            None => Err(PushAdmissionError::InvalidRequest),
        }
    }

    /// The submission says what the request says.
    pub open spec fn submits(self, submitted: AdmissionRequest) -> bool {
        &&& submitted.class == ResourceClass::Push
        &&& submitted.identity.same_as(self.identity)
        &&& submitted.weights == self.cost.spec_weights()
        &&& submitted.submitted_at == self.submitted_at
        &&& submitted.deadline == self.deadline
        &&& submitted.service_estimate == self.service_estimate
    }

    /// Make the submission to the controller.
    pub fn shared_request(&self) -> (result: Result<AdmissionRequest, PushAdmissionError>)
        ensures
            match result {
                Ok(submitted) => self.cost.weights_fit() && self.submits(submitted),
                Err(error) => !self.cost.weights_fit() && error == PushAdmissionError::InvalidCost,
            },
    {
        let weights = self.cost.weights()?;
        Ok(
            AdmissionRequest {
                class: ResourceClass::Push,
                identity: self.identity.clone(),
                weights,
                submitted_at: self.submitted_at,
                deadline: self.deadline,
                service_estimate: self.service_estimate,
            },
        )
    }
}

/// Push queue, fairness and backend limits.
#[derive(Clone, Copy, Debug, PartialEq, Eq, Structural)]
pub struct PushQueueLimits {
    /// Maximum queued requests.
    pub max_queued: usize,
    /// Maximum retained bytes.
    pub max_queued_bytes: u64,
    /// Maximum queued requests of one tenant.
    pub max_tenant_queued: usize,
    /// Maximum retained bytes of one tenant.
    pub max_tenant_queued_bytes: u64,
    /// Maximum queued requests of one repository.
    pub max_repository_queued: usize,
    /// Maximum retained bytes of one repository.
    pub max_repository_queued_bytes: u64,
    /// Maximum queued requests of one actor.
    pub max_actor_queued: usize,
    /// Maximum retained bytes of one actor.
    pub max_actor_queued_bytes: u64,
    /// Credit that one logical round gives.
    pub fair_quantum: u64,
    /// Maximum credit.
    pub max_deficit: u64,
    /// Wait that earns one aging credit.
    pub aging_interval: Duration,
    /// Service units taken off per aging interval.
    pub aging_credit_units: u64,
    /// Largest cost of a small push.
    pub small_push_units: u64,
    /// Maximum consecutive small grants while an eligible large push waits.
    pub max_small_bypass: u32,
    /// Active workers.
    pub max_workers: usize,
    /// Active range requests.
    pub max_range_concurrency: usize,
    /// Active multipart uploads.
    pub max_multipart_concurrency: usize,
    /// Active quarantine bytes.
    pub max_quarantine_bytes: u64,
}

impl PushQueueLimits {
    /// The limits are positive and nested; an actor's are below its tenant's and repository's.
    pub open spec fn valid(self) -> bool {
        &&& 0 < self.max_actor_queued < self.max_repository_queued <= self.max_tenant_queued
            <= self.max_queued
        &&& 0 < self.max_actor_queued_bytes < self.max_repository_queued_bytes
            <= self.max_tenant_queued_bytes <= self.max_queued_bytes
        &&& 0 < self.fair_quantum <= self.max_deficit
        &&& self.aging_interval.nanos > 0
        &&& 0 < self.small_push_units <= self.max_deficit
        &&& self.max_small_bypass > 0
        &&& self.max_workers > 0
        &&& self.max_range_concurrency > 0
        &&& self.max_multipart_concurrency > 0
        &&& self.max_quarantine_bytes > 0
    }

    /// Validate queue, fairness and backend limits.
    pub fn validate(self) -> (result: Result<Self, PushAdmissionError>)
        ensures
            result == if self.valid() {
                Ok::<Self, PushAdmissionError>(self)
            } else {
                Err(PushAdmissionError::InvalidQueueLimits)
            },
    {
        if self.max_queued == 0 || self.max_queued_bytes == 0 || self.max_tenant_queued == 0
            || self.max_tenant_queued > self.max_queued || self.max_tenant_queued_bytes == 0
            || self.max_tenant_queued_bytes > self.max_queued_bytes || self.max_repository_queued
            == 0 || self.max_repository_queued > self.max_tenant_queued
            || self.max_repository_queued_bytes == 0 || self.max_repository_queued_bytes
            > self.max_tenant_queued_bytes || self.max_actor_queued == 0 || self.max_actor_queued
            >= self.max_tenant_queued || self.max_actor_queued >= self.max_repository_queued
            || self.max_actor_queued_bytes == 0 || self.max_actor_queued_bytes
            >= self.max_tenant_queued_bytes || self.max_actor_queued_bytes
            >= self.max_repository_queued_bytes || self.fair_quantum == 0 || self.max_deficit
            < self.fair_quantum || self.aging_interval.nanos == 0 || self.small_push_units == 0
            || self.small_push_units > self.max_deficit || self.max_small_bypass == 0
            || self.max_workers == 0 || self.max_range_concurrency == 0
            || self.max_multipart_concurrency == 0 || self.max_quarantine_bytes == 0 {
            return Err(PushAdmissionError::InvalidQueueLimits);
        }
        Ok(self)
    }

    /// The quota of every scope of one kind.
    pub open spec fn spec_quota(self, kind: int) -> ScopeQuota {
        if kind == 0 {
            ScopeQuota { max_count: self.max_tenant_queued, max_bytes: self.max_tenant_queued_bytes }
        } else if kind == 1 {
            ScopeQuota {
                max_count: self.max_repository_queued,
                max_bytes: self.max_repository_queued_bytes,
            }
        } else {
            ScopeQuota { max_count: self.max_actor_queued, max_bytes: self.max_actor_queued_bytes }
        }
    }

    fn quota(self, kind: usize) -> (quota: ScopeQuota)
        ensures
            quota == self.spec_quota(kind as int),
    {
        if kind == 0 {
            ScopeQuota { max_count: self.max_tenant_queued, max_bytes: self.max_tenant_queued_bytes }
        } else if kind == 1 {
            ScopeQuota {
                max_count: self.max_repository_queued,
                max_bytes: self.max_repository_queued_bytes,
            }
        } else {
            ScopeQuota { max_count: self.max_actor_queued, max_bytes: self.max_actor_queued_bytes }
        }
    }
}

/// Scan budget.
pub trait PushQueueWorkBudget {
    /// A charge may be answered so.
    closed spec fn answers(units: u64, charged: bool) -> bool {
        true
    }

    /// Units left, where the budget counts them.
    closed spec fn allowance(&self) -> Option<nat> {
        None
    }

    /// Charge scan units; `false` means that the budget is exhausted.
    fn charge(&mut self, units: u64) -> (charged: bool)
        ensures
            Self::answers(units, charged),
            spends(old(self).allowance(), final(self).allowance(), units, charged),
    ;
}

/// The budget refuses a charge that a scan of this queue makes: one unit for a request looked at, or
/// one for each request waiting.
pub open spec fn scan_refused<B: PushQueueWorkBudget>(state: PushQueueState) -> bool {
    &&& state.queue.slots@.len() > 0
    &&& B::answers(1, false) || B::answers(state.queue.slots@.len() as u64, false)
}

/// What a scan that ran out of budget leaves: the time is remembered and the same requests wait;
/// the credit of the round was given or not, nothing was offered, and the run of small grants goes
/// on while a large push could be served.
pub open spec fn scan_stopped(
    before: PushQueueState,
    after: PushQueueState,
    logical_round: u64,
    observed_at: Timestamp,
) -> bool {
    &&& after.limits == before.limits
    &&& after.last_observed_at == Some(observed_at)
    &&& after.backend == before.backend
    &&& after.active == before.active
    &&& after.counters == before.counters
    &&& {
        ||| {
            &&& after.queue == before.queue
            &&& after.last_round == before.last_round
            &&& after.consecutive_small == before.consecutive_small
        }
        ||| {
            &&& credit_given(before, after.queue, logical_round)
            &&& after.last_round == round_after(before.last_round, logical_round)
            &&& after.consecutive_small == before.consecutive_small || after.consecutive_small
                == run_kept(before, after.queue, observed_at)
        }
    }
}

/// Counter-based scan budget.
#[derive(Clone, Copy, Debug, PartialEq, Eq, Structural)]
pub struct PushQueueWorkLimit {
    remaining: u64,
}

impl PushQueueWorkLimit {
    /// Units left.
    pub closed spec fn left(self) -> u64 {
        self.remaining
    }

    /// Create an exact allowance.
    pub fn new(units: u64) -> (limit: Self)
        ensures
            limit.left() == units,
    {
        PushQueueWorkLimit { remaining: units }
    }

    /// Return the units left.
    pub fn remaining(&self) -> (units: u64)
        ensures
            units == self.left(),
    {
        self.remaining
    }
}

impl PushQueueWorkBudget for PushQueueWorkLimit {
    open spec fn answers(units: u64, charged: bool) -> bool {
        charged || units > 0
    }

    open spec fn allowance(&self) -> Option<nat> {
        Some(self.left() as nat)
    }

    fn charge(&mut self, units: u64) -> (charged: bool)
        ensures
            charged == (units <= old(self).left()),
            final(self).left() == if charged {
                (old(self).left() - units) as u64
            } else {
                old(self).left()
            },
    {
        if units > self.remaining {
            return false;
        }
        self.remaining = self.remaining - units;
        true
    }
}

/// Load-shedding category.
#[derive(Clone, Copy, Debug, PartialEq, Eq, Structural)]
pub enum PushAdmissionRejectReason {
    /// A queue quota is full.
    QueueFull,
    /// Capacity is saturated.
    LoadShed,
    /// The request cannot finish before its deadline.
    Deadline,
    /// The request can never fit.
    TooLarge,
    /// Memory is short.
    Allocation,
}

/// Rejection with retry guidance.
#[derive(Clone, Copy, Debug, PartialEq, Eq, Structural)]
pub struct PushAdmissionRejection {
    /// Category.
    pub reason: PushAdmissionRejectReason,
    /// When to try again.
    pub retry: RetryGuidance,
}

/// The category of a controller's reason.
pub open spec fn mapped_reason(reason: AdmissionRejectReason) -> PushAdmissionRejectReason {
    match reason {
        AdmissionRejectReason::Deadline => PushAdmissionRejectReason::Deadline,
        AdmissionRejectReason::BackendOverloaded => PushAdmissionRejectReason::LoadShed,
        AdmissionRejectReason::AllocationPressure => PushAdmissionRejectReason::Allocation,
        AdmissionRejectReason::UnknownTicket => PushAdmissionRejectReason::LoadShed,
    }
}

/// Map a controller's rejection.
pub fn map_rejection(reason: AdmissionRejectReason, retry: RetryGuidance) -> (rejection:
    PushAdmissionRejection)
    ensures
        rejection == (PushAdmissionRejection { reason: mapped_reason(reason), retry }),
{
    let reason = match reason {
        AdmissionRejectReason::Deadline => PushAdmissionRejectReason::Deadline,
        AdmissionRejectReason::BackendOverloaded => PushAdmissionRejectReason::LoadShed,
        AdmissionRejectReason::AllocationPressure => PushAdmissionRejectReason::Allocation,
        AdmissionRejectReason::UnknownTicket => PushAdmissionRejectReason::LoadShed,
    };
    PushAdmissionRejection { reason, retry }
}

/// The rejection of an overdue request.
pub fn deadline_rejection() -> (rejection: PushAdmissionRejection)
    ensures
        rejection == (PushAdmissionRejection {
            reason: PushAdmissionRejectReason::Deadline,
            retry: RetryGuidance::DoNotRetry,
        }),
{
    PushAdmissionRejection {
        reason: PushAdmissionRejectReason::Deadline,
        retry: RetryGuidance::DoNotRetry,
    }
}

/// Push-only capacity in use.
#[derive(Clone, Copy, Debug, PartialEq, Eq, Structural)]
pub struct BackendUsage {
    /// Workers.
    pub workers: usize,
    /// Range requests.
    pub ranges: usize,
    /// Multipart uploads.
    pub multipart: usize,
    /// Quarantine bytes.
    pub quarantine_bytes: u64,
}

impl BackendUsage {
    /// Nothing is in use.
    pub open spec fn spec_empty() -> BackendUsage {
        BackendUsage { workers: 0, ranges: 0, multipart: 0, quarantine_bytes: 0 }
    }

    /// The usage with one more push, if it is representable.
    pub open spec fn spec_add(self, cost: PushAdmissionCost) -> Option<BackendUsage> {
        if self.workers + cost.workers > usize::MAX || self.ranges + cost.range_concurrency
            > usize::MAX || self.multipart + cost.multipart_concurrency > usize::MAX
            || self.quarantine_bytes + cost.quarantine_bytes > u64::MAX {
            None
        } else {
            Some(
                BackendUsage {
                    workers: (self.workers + cost.workers) as usize,
                    ranges: (self.ranges + cost.range_concurrency) as usize,
                    multipart: (self.multipart + cost.multipart_concurrency) as usize,
                    quarantine_bytes: (self.quarantine_bytes + cost.quarantine_bytes) as u64,
                },
            )
        }
    }

    /// The usage with one push fewer, if so much is in use.
    pub open spec fn spec_sub(self, cost: PushAdmissionCost) -> Option<BackendUsage> {
        if self.workers < cost.workers || self.ranges < cost.range_concurrency || self.multipart
            < cost.multipart_concurrency || self.quarantine_bytes < cost.quarantine_bytes {
            None
        } else {
            Some(
                BackendUsage {
                    workers: (self.workers - cost.workers) as usize,
                    ranges: (self.ranges - cost.range_concurrency) as usize,
                    multipart: (self.multipart - cost.multipart_concurrency) as usize,
                    quarantine_bytes: (self.quarantine_bytes - cost.quarantine_bytes) as u64,
                },
            )
        }
    }

    /// The usage is within the limits.
    pub open spec fn spec_fits(self, limits: PushQueueLimits) -> bool {
        &&& self.workers <= limits.max_workers
        &&& self.ranges <= limits.max_range_concurrency
        &&& self.multipart <= limits.max_multipart_concurrency
        &&& self.quarantine_bytes <= limits.max_quarantine_bytes
    }

    /// One more push fits.
    pub open spec fn admits(self, cost: PushAdmissionCost, limits: PushQueueLimits) -> bool {
        self.spec_add(cost) is Some && self.spec_add(cost)->0.spec_fits(limits)
    }

    /// Add one push.
    pub fn checked_add(self, cost: PushAdmissionCost) -> (sum: Option<BackendUsage>)
        ensures
            sum == self.spec_add(cost),
    {
        let workers: usize = match self.workers.checked_add(cost.workers) {
            Some(value) => value,
            None => {
                return None;
            },
        };
        let ranges: usize = match self.ranges.checked_add(cost.range_concurrency) {
            Some(value) => value,
            None => {
                return None;
            },
        };
        let multipart: usize = match self.multipart.checked_add(cost.multipart_concurrency) {
            Some(value) => value,
            None => {
                return None;
            },
        };
        let quarantine_bytes: u64 = match self.quarantine_bytes.checked_add(cost.quarantine_bytes) {
            Some(value) => value,
            None => {
                return None;
            },
        };
        Some(BackendUsage { workers, ranges, multipart, quarantine_bytes })
    }

    /// Take one push away.
    pub fn checked_sub(self, cost: PushAdmissionCost) -> (rest: Option<BackendUsage>)
        ensures
            rest == self.spec_sub(cost),
    {
        if self.workers < cost.workers || self.ranges < cost.range_concurrency || self.multipart
            < cost.multipart_concurrency || self.quarantine_bytes < cost.quarantine_bytes {
            return None;
        }
        Some(
            BackendUsage {
                workers: self.workers - cost.workers,
                ranges: self.ranges - cost.range_concurrency,
                multipart: self.multipart - cost.multipart_concurrency,
                quarantine_bytes: self.quarantine_bytes - cost.quarantine_bytes,
            },
        )
    }

    /// Return whether the usage is within the limits.
    pub fn fits(self, limits: PushQueueLimits) -> (fits: bool)
        ensures
            fits == self.spec_fits(limits),
    {
        self.workers <= limits.max_workers && self.ranges <= limits.max_range_concurrency
            && self.multipart <= limits.max_multipart_concurrency && self.quarantine_bytes
            <= limits.max_quarantine_bytes
    }

    /// Return whether one more push fits.
    fn can_admit(self, cost: PushAdmissionCost, limits: PushQueueLimits) -> (fits: bool)
        ensures
            fits == self.admits(cost, limits),
    {
        match self.checked_add(cost) {
            Some(usage) => usage.fits(limits),
            None => false,
        }
    }
}

/// Capacity taken and given back is as it was.
pub proof fn law_release_undoes_grant(usage: BackendUsage, cost: PushAdmissionCost)
    requires
        usage.spec_add(cost) is Some,
    ensures
        usage.spec_add(cost)->0.spec_sub(cost) == Some(usage),
{
}

/// Event counts since construction.
#[derive(Clone, Copy, Debug, PartialEq, Eq, Structural)]
pub struct PushCounters {
    /// Grants.
    pub grants: u64,
    /// Rejections.
    pub rejections: u64,
    /// Cancellations.
    pub cancellations: u64,
    /// Terminal outcomes.
    pub completed: u64,
    /// Durable publications.
    pub published: u64,
    /// Rejections before publication.
    pub rejected_terminal: u64,
    /// Backend failures before publication.
    pub backend_failures: u64,
    /// Aborted permits.
    pub aborted: u64,
}

/// One more, as far as that is representable.
pub open spec fn bumped(count: u64) -> u64 {
    if count == u64::MAX {
        count
    } else {
        (count + 1) as u64
    }
}

/// The scope that an identity counts in, of each kind: tenant, repository, actor.
pub open spec fn scope_key(identity: AdmissionIdentity, kind: int) -> (Seq<char>, Seq<char>) {
    if kind == 0 {
        tenant_scope(identity)
    } else if kind == 1 {
        repository_scope(identity)
    } else {
        (identity.tenant@, identity.actor@)
    }
}

/// The keys are the three scopes of an identity.
pub open spec fn keys_of(keys: Seq<ScopeKey>, identity: AdmissionIdentity) -> bool {
    &&& keys.len() == 3
    &&& forall|kind: int| 0 <= kind < 3 ==> (#[trigger] keys[kind])@ == scope_key(identity, kind)
}

/// Make the three scopes of an identity.
fn make_keys(identity: &AdmissionIdentity) -> (keys: Vec<ScopeKey>)
    ensures
        keys_of(keys@, *identity),
{
    let mut keys: Vec<ScopeKey> = Vec::new();
    keys.push(ScopeKey { tenant: identity.tenant.value.clone(), part: String::new() });
    keys.push(
        ScopeKey {
            tenant: identity.tenant.value.clone(),
            part: identity.repository.value.clone(),
        },
    );
    keys.push(ScopeKey { tenant: identity.tenant.value.clone(), part: identity.actor.clone() });
    keys
}

/// Push queue between two steps.
#[derive(Debug)]
pub struct PushQueueState {
    /// Limits.
    pub limits: PushQueueLimits,
    /// Waiting requests, counted by tenant, repository and actor.
    pub queue: FairQueue<PushAdmissionRequest>,
    /// Latest observation.
    pub last_observed_at: Option<Timestamp>,
    /// Latest logical round that gave credit.
    pub last_round: u64,
    /// Small grants since the last large one.
    pub consecutive_small: u32,
    /// Push-only capacity in use.
    pub backend: BackendUsage,
    /// Active pushes.
    pub active: usize,
    /// Event counts.
    pub counters: PushCounters,
}

/// A slot holds a valid request under its own scopes that fits an idle backend.
pub open spec fn slot_sound(slot: QueueSlot<PushAdmissionRequest>, limits: PushQueueLimits) -> bool {
    &&& keys_of(slot.keys@, slot.request.identity)
    &&& slot.bytes == slot.request.queued_bytes
    &&& slot.request.fault() is None
    &&& slot.request.times_in_range()
    &&& slot.request.cost.fair_service_units <= limits.max_deficit
    &&& BackendUsage::spec_empty().admits(slot.request.cost, limits)
}

/// The work of one selection was granted: a unit for each request looked at and, where a candidate
/// was looked for, one for each request waiting.
pub open spec fn charges_granted<B: PushQueueWorkBudget>(
    state: PushQueueState,
    rejected: bool,
) -> bool {
    &&& state.queue.slots@.len() > 0 ==> B::answers(1, true)
    &&& state.queue.slots@.len() > 0 && !rejected ==> B::answers(
        state.queue.slots@.len() as u64,
        true,
    )
}

impl PushQueueState {
    /// Every bound is kept and every record is what waits.
    pub open spec fn wf(self) -> bool {
        &&& self.limits.valid()
        &&& self.queue.wf()
        &&& self.queue.scopes@.len() == 3
        &&& self.queue.slots@.len() <= self.limits.max_queued
        &&& self.queue.queued_bytes <= self.limits.max_queued_bytes
        &&& forall|kind: int|
            0 <= kind < 3 ==> quota_kept(
                #[trigger] self.queue.scope(kind),
                self.limits.spec_quota(kind),
            ) && credit_bounded(self.queue.scope(kind), self.limits.max_deficit)
        &&& forall|i: int|
            0 <= i < self.queue.slots@.len() ==> slot_sound(
                #[trigger] self.queue.slots@[i],
                self.limits,
            )
        &&& self.backend.spec_fits(self.limits)
        &&& self.last_observed_at is Some ==> self.last_observed_at->0.in_range()
    }

    /// The limits, the latest round and the latest time are the same.
    pub open spec fn same_clock(self, other: PushQueueState) -> bool {
        &&& self.limits == other.limits
        &&& self.last_observed_at == other.last_observed_at
        &&& self.last_round == other.last_round
    }

    /// Only the queue may differ.
    pub open spec fn same_but_queue(self, other: PushQueueState) -> bool {
        &&& self.limits == other.limits
        &&& self.last_observed_at == other.last_observed_at
        &&& self.last_round == other.last_round
        &&& self.consecutive_small == other.consecutive_small
        &&& self.backend == other.backend
        &&& self.active == other.active
        &&& self.counters == other.counters
    }

    /// Another request would exceed a bound.
    pub open spec fn full_for(self, request: PushAdmissionRequest) -> bool {
        ||| self.queue.queued_bytes + request.queued_bytes > self.limits.max_queued_bytes
        ||| self.queue.slots@.len() >= self.limits.max_queued
        ||| exists|kind: int|
            0 <= kind < 3 && !usage_of(
                #[trigger] self.queue.scope(kind),
                scope_key(request.identity, kind),
            ).spec_fits(request.queued_bytes, self.limits.spec_quota(kind))
    }

    /// Why a request is not queued, if it is not.
    pub open spec fn enqueue_fault(self, request: PushAdmissionRequest) -> Option<
        PushAdmissionError,
    > {
        match request.fault() {
            Some(error) => Some(error),
            None => if request.cost.fair_service_units > self.limits.max_deficit
                || !BackendUsage::spec_empty().admits(request.cost, self.limits) {
                Some(PushAdmissionError::InvalidCost)
            } else if self.full_for(request) {
                Some(PushAdmissionError::QueueFull)
            } else if self.queue.next_ticket == u64::MAX {
                Some(PushAdmissionError::TicketOverflow)
            } else {
                None
            },
        }
    }

    /// Create an empty queue.
    pub fn new(limits: PushQueueLimits) -> (result: Result<Self, PushAdmissionError>)
        ensures
            limits.valid() <==> result is Ok,
            !limits.valid() ==> result->Err_0 == PushAdmissionError::InvalidQueueLimits,
            result is Ok ==> {
                let state = result->Ok_0;
                &&& state.wf()
                &&& state.limits == limits
                &&& state.queue.slots@.len() == 0
                &&& state.queue.next_ticket == 1
                &&& state.last_observed_at is None
                &&& state.last_round == 0
                &&& state.backend == BackendUsage::spec_empty()
                &&& state.active == 0
            },
    {
        if let Err(error) = limits.validate() {
            return Err(error);
        }
        let queue: FairQueue<PushAdmissionRequest> = FairQueue::new(3);
        proof {
            assert forall|kind: int| 0 <= kind < 3 implies quota_kept(
                #[trigger] queue.scope(kind),
                limits.spec_quota(kind),
            ) && credit_bounded(queue.scope(kind), limits.max_deficit) by {
                assert(queue.scope(kind) == ScopeMap::empty());
            }
        }
        Ok(
            PushQueueState {
                limits,
                queue,
                last_observed_at: None,
                last_round: 0,
                consecutive_small: 0,
                backend: BackendUsage { workers: 0, ranges: 0, multipart: 0, quarantine_bytes: 0 },
                active: 0,
                counters: PushCounters {
                    grants: 0,
                    rejections: 0,
                    cancellations: 0,
                    completed: 0,
                    published: 0,
                    rejected_terminal: 0,
                    backend_failures: 0,
                    aborted: 0,
                },
            },
        )
    }

    /// Return whether a request fits every quota of its scopes.
    fn scopes_fit(&self, keys: &Vec<ScopeKey>, bytes: u64) -> (fits: bool)
        requires
            keys@.len() == 3,
            self.queue.scopes@.len() == 3,
        ensures
            fits == forall|kind: int|
                0 <= kind < 3 ==> usage_of(
                    #[trigger] self.queue.scope(kind),
                    keys@[kind]@,
                ).spec_fits(bytes, self.limits.spec_quota(kind)),
    {
        let mut kind: usize = 0;
        while kind < 3
            invariant
                kind <= 3,
                keys@.len() == 3,
                self.queue.scopes@.len() == 3,
                forall|k: int|
                    0 <= k < kind ==> usage_of(
                        #[trigger] self.queue.scope(k),
                        keys@[k]@,
                    ).spec_fits(bytes, self.limits.spec_quota(k)),
            decreases 3 - kind,
        {
            let usage: ScopeUsage = self.queue.scopes[kind].usage(&keys[kind]);
            assert(usage == usage_of(self.queue.scope(kind as int), keys@[kind as int]@));
            if !usage.fits(bytes, self.limits.quota(kind)) {
                return false;
            }
            kind = kind + 1;
        }
        true
    }

    /// Validate and queue one push before reading input.
    pub fn enqueue(&mut self, request: PushAdmissionRequest) -> (result: Result<
        PushAdmissionTicket,
        PushAdmissionError,
    >)
        requires
            old(self).wf(),
            request.times_in_range(),
        ensures
            final(self).wf(),
            match old(self).enqueue_fault(request) {
                Some(error) => {
                    &&& result == Err::<PushAdmissionTicket, PushAdmissionError>(error)
                    &&& *final(self) == if error == PushAdmissionError::QueueFull {
                        (PushQueueState {
                            counters: (PushCounters {
                                rejections: bumped(old(self).counters.rejections),
                                ..old(self).counters
                            }),
                            ..*old(self)
                        })
                    } else {
                        *old(self)
                    }
                },
                None => {
                    &&& result is Ok
                    &&& result->Ok_0.value == old(self).queue.next_ticket
                    &&& final(self).same_but_queue(*old(self))
                    &&& final(self).queue.next_ticket == old(self).queue.next_ticket + 1
                    &&& final(self).queue.slots@.drop_last() == old(self).queue.slots@
                    &&& final(self).queue.slots@.len() == old(self).queue.slots@.len() + 1
                    &&& final(self).queue.slots@.last().request == request
                    &&& final(self).queue.slots@.last().ticket == result->Ok_0.value
                    &&& forall|kind: int|
                        0 <= kind < 3 ==> #[trigger] final(self).queue.scope(kind) == charged(
                            old(self).queue.scope(kind),
                            scope_key(request.identity, kind),
                            request.queued_bytes,
                        )
                    &&& final(self).queue.cursor == old(self).queue.cursor
                    &&& final(self).queue.dispatching@ == old(self).queue.dispatching@
                },
            },
    {
        request.validate()?;
        let idle = BackendUsage { workers: 0, ranges: 0, multipart: 0, quarantine_bytes: 0 };
        if request.cost.fair_service_units > self.limits.max_deficit || !idle.can_admit(
            request.cost,
            self.limits,
        ) {
            return Err(PushAdmissionError::InvalidCost);
        }
        let keys: Vec<ScopeKey> = make_keys(&request.identity);
        let bytes: u64 = request.queued_bytes;
        let total_fits: bool = match self.queue.queued_bytes.checked_add(bytes) {
            Some(total) => total <= self.limits.max_queued_bytes,
            None => false,
        };
        if self.queue.slots.len() >= self.limits.max_queued || !self.scopes_fit(&keys, bytes)
            || !total_fits {
            self.counters.rejections = self.counters.rejections.saturating_add(1);
            return Err(PushAdmissionError::QueueFull);
        }
        if self.queue.next_ticket == u64::MAX {
            return Err(PushAdmissionError::TicketOverflow);
        }
        let ghost before = *self;
        let ghost given = keys@;
        let ticket: u64 = self.queue.push(keys, bytes, request);
        proof {
            assert(self.queue.slots@.drop_last() =~= before.queue.slots@);
            assert(self.queue.slots@.last().keys@ == given);
            assert(slot_sound(self.queue.slots@.last(), self.limits));
            assert forall|i: int| 0 <= i < self.queue.slots@.len() implies slot_sound(
                #[trigger] self.queue.slots@[i],
                self.limits,
            ) by {
                if i < before.queue.slots@.len() {
                    assert(self.queue.slots@[i] == before.queue.slots@[i]);
                }
            }
            assert forall|kind: int| 0 <= kind < 3 implies #[trigger] self.queue.scope(kind)
                == charged(
                before.queue.scope(kind),
                scope_key(request.identity, kind),
                request.queued_bytes,
            ) by {
                assert(given[kind]@ == scope_key(request.identity, kind));
            }
            assert forall|kind: int| 0 <= kind < 3 implies quota_kept(
                #[trigger] self.queue.scope(kind),
                self.limits.spec_quota(kind),
            ) && credit_bounded(self.queue.scope(kind), self.limits.max_deficit) by {
                let key = scope_key(request.identity, kind);
                assert(given[kind]@ == key);
                assert(usage_of(before.queue.scope(kind), key).spec_fits(
                    bytes,
                    self.limits.spec_quota(kind),
                ));
                assert(quota_kept(before.queue.scope(kind), self.limits.spec_quota(kind)));
            }
        }
        Ok(PushAdmissionTicket { value: ticket })
    }
}

/// The service units that a waiting request costs now.
pub open spec fn cost_now(
    request: PushAdmissionRequest,
    observed_at: Timestamp,
    limits: PushQueueLimits,
) -> u64 {
    aged_units(
        request.cost.fair_service_units,
        waited_nanos(request.submitted_at, observed_at),
        limits.aging_interval.nanos,
        limits.aging_credit_units,
    )
}

/// Compute the service units that a waiting request costs now.
fn effective_cost(
    request: &PushAdmissionRequest,
    observed_at: Timestamp,
    limits: PushQueueLimits,
) -> (cost: u64)
    requires
        request.times_in_range(),
        request.fault() is None,
        observed_at.in_range(),
        limits.valid(),
    ensures
        cost == cost_now(*request, observed_at, limits),
        1 <= cost <= request.cost.fair_service_units,
{
    aged_cost(
        request.cost.fair_service_units,
        request.submitted_at,
        observed_at,
        limits.aging_interval,
        limits.aging_credit_units,
    )
}

/// One request leaves the queue between two states.
pub open spec fn slot_removed(before: PushQueueState, after: PushQueueState, at: int) -> bool {
    let slot = before.queue.slots@[at];
    &&& 0 <= at < before.queue.slots@.len()
    &&& after.queue.slots@ == before.queue.slots@.remove(at)
    &&& after.queue.next_ticket == before.queue.next_ticket
    &&& after.queue.queued_bytes == before.queue.queued_bytes - slot.bytes
    &&& forall|kind: int|
        0 <= kind < 3 ==> #[trigger] after.queue.scope(kind) == discharged(
            before.queue.scope(kind),
            scope_key(slot.request.identity, kind),
            slot.bytes,
        )
}

/// A request is small.
pub open spec fn small(request: PushAdmissionRequest, limits: PushQueueLimits) -> bool {
    request.cost.fair_service_units <= limits.small_push_units
}

/// Every scope of a request has the credit.
pub open spec fn credit_covers(
    queue: FairQueue<PushAdmissionRequest>,
    identity: AdmissionIdentity,
    units: u64,
) -> bool {
    forall|kind: int|
        0 <= kind < 3 ==> units <= usage_of(
            #[trigger] queue.scope(kind),
            scope_key(identity, kind),
        ).credit()
}

/// A request may be offered now: it is not being offered, it has been submitted and can still
/// finish, the backend has room, and its scopes have the credit.
pub open spec fn eligible(
    queue: FairQueue<PushAdmissionRequest>,
    backend: BackendUsage,
    at: int,
    observed_at: Timestamp,
    limits: PushQueueLimits,
) -> bool {
    let slot = queue.slots@[at];
    &&& !queue.dispatching@.contains(slot.ticket)
    &&& observed_at.unix_nanos >= slot.request.submitted_at.unix_nanos
    &&& !overdue(observed_at, slot.request.service_estimate, slot.request.deadline)
    &&& backend.admits(slot.request.cost, limits)
    &&& credit_covers(
        queue,
        slot.request.identity,
        cost_now(slot.request, observed_at, limits),
    )
}

/// Some eligible request is large.
pub open spec fn large_waits(
    queue: FairQueue<PushAdmissionRequest>,
    backend: BackendUsage,
    observed_at: Timestamp,
    limits: PushQueueLimits,
) -> bool {
    exists|i: int|
        0 <= i < queue.slots@.len() && #[trigger] eligible(queue, backend, i, observed_at, limits)
            && !small(queue.slots@[i].request, limits)
}

/// A request that may be offered, given whether a large one must be.
pub open spec fn candidate(
    queue: FairQueue<PushAdmissionRequest>,
    backend: BackendUsage,
    at: int,
    observed_at: Timestamp,
    limits: PushQueueLimits,
    force_large: bool,
) -> bool {
    &&& eligible(queue, backend, at, observed_at, limits)
    &&& !(force_large && small(queue.slots@[at].request, limits))
}

/// A request that is not being offered cannot finish any more.
pub open spec fn expired(
    queue: FairQueue<PushAdmissionRequest>,
    at: int,
    observed_at: Timestamp,
) -> bool {
    let slot = queue.slots@[at];
    !queue.dispatching@.contains(slot.ticket) && overdue(
        observed_at,
        slot.request.service_estimate,
        slot.request.deadline,
    )
}

/// No request is overdue.
pub open spec fn none_expired(queue: FairQueue<PushAdmissionRequest>, observed_at: Timestamp) -> bool {
    forall|i: int| 0 <= i < queue.slots@.len() ==> !#[trigger] expired(queue, i, observed_at)
}

/// One request offered to the controller.
#[derive(Debug)]
pub struct PushOffer {
    /// Ticket of the request.
    pub ticket: PushAdmissionTicket,
    /// Where it stood when it was offered.
    pub index: usize,
    /// Service units taken.
    pub cost: u64,
    /// Scopes that they were taken from.
    pub keys: Vec<ScopeKey>,
}

impl PushOffer {
    /// There is one scope of each kind.
    pub open spec fn wf(self) -> bool {
        self.keys@.len() == 3
    }
}

/// What one scan of the queue decided.
#[derive(Debug)]
pub enum PushSelection {
    /// Nothing can be offered.
    Waiting {
        /// Requests waiting.
        queued: usize,
    },
    /// One overdue request was removed.
    Expired {
        /// Its ticket.
        ticket: PushAdmissionTicket,
    },
    /// One request is to be offered to the controller.
    Offer {
        /// The offer.
        offer: PushOffer,
        /// The submission.
        request: AdmissionRequest,
    },
}

impl PushQueueState {
    /// Remove a waiting request.
    fn remove_queued(&mut self, at: usize) -> (slot: QueueSlot<PushAdmissionRequest>)
        requires
            old(self).wf(),
            at < old(self).queue.slots@.len(),
        ensures
            final(self).wf(),
            final(self).same_but_queue(*old(self)),
            slot == old(self).queue.slots@[at as int],
            slot_removed(*old(self), *final(self), at as int),
            final(self).queue.cursor == old(self).queue.cursor,
            final(self).queue.dispatching@ == old(self).queue.dispatching@,
    {
        let ghost before = *self;
        assert(slot_sound(before.queue.slots@[at as int], before.limits));
        let slot = self.queue.remove(at);
        proof {
            assert forall|kind: int| 0 <= kind < 3 implies #[trigger] self.queue.scope(kind)
                == discharged(
                before.queue.scope(kind),
                scope_key(slot.request.identity, kind),
                slot.bytes,
            ) by {
                assert(slot.keys@[kind]@ == scope_key(slot.request.identity, kind));
            }
            assert forall|kind: int| 0 <= kind < 3 implies quota_kept(
                #[trigger] self.queue.scope(kind),
                self.limits.spec_quota(kind),
            ) && credit_bounded(self.queue.scope(kind), self.limits.max_deficit) by {
                assert(slot.keys@[kind]@ == scope_key(slot.request.identity, kind));
                assert(quota_kept(before.queue.scope(kind), self.limits.spec_quota(kind)));
                assert(scope_matches(
                    before.queue.scope(kind),
                    slot_charges(before.queue.slots@, kind),
                ));
                crate::fair_queue::lemma_discharged_matches(
                    before.queue.scope(kind),
                    slot_charges(before.queue.slots@, kind),
                    at as int,
                );
                lemma_discharge_keeps_bounds(
                    before.queue.scope(kind),
                    slot.keys@[kind]@,
                    slot.bytes,
                    self.limits.spec_quota(kind),
                    self.limits.max_deficit,
                );
            }
            assert forall|i: int| 0 <= i < self.queue.slots@.len() implies slot_sound(
                #[trigger] self.queue.slots@[i],
                self.limits,
            ) by {
                if i < at {
                    assert(self.queue.slots@[i] == before.queue.slots@[i]);
                } else {
                    assert(self.queue.slots@[i] == before.queue.slots@[i + 1]);
                }
            }
        }
        slot
    }

    /// Give service units back to the scopes of an offer.
    fn refund_deficits(&mut self, keys: &Vec<ScopeKey>, units: u64)
        requires
            old(self).wf(),
            keys@.len() == 3,
        ensures
            final(self).wf(),
            final(self).same_but_queue(*old(self)),
            final(self).queue.same_but_credit(old(self).queue),
            forall|kind: int|
                0 <= kind < 3 ==> #[trigger] final(self).queue.scope(kind) == refunded(
                    old(self).queue.scope(kind),
                    keys@[kind]@,
                    units,
                    old(self).limits.max_deficit,
                ),
    {
        let ghost before = *self;
        self.queue.refund(keys, units, self.limits.max_deficit);
        proof {
            assert forall|kind: int| 0 <= kind < 3 implies quota_kept(
                #[trigger] self.queue.scope(kind),
                self.limits.spec_quota(kind),
            ) && credit_bounded(self.queue.scope(kind), self.limits.max_deficit) by {
                assert(quota_kept(before.queue.scope(kind), self.limits.spec_quota(kind)));
                lemma_credit_keeps_bounds(
                    before.queue.scope(kind),
                    keys@[kind]@,
                    units,
                    self.limits.spec_quota(kind),
                    self.limits.max_deficit,
                );
            }
        }
    }

    /// Cancel a waiting request, and return whether it waited.
    pub fn cancel(&mut self, ticket: PushAdmissionTicket) -> (removed: bool)
        requires
            old(self).wf(),
        ensures
            final(self).wf(),
            removed == old(self).queue.waits(ticket.value),
            !final(self).queue.waits(ticket.value),
            !removed ==> *final(self) == *old(self),
            removed ==> one_cancelled(*old(self), *final(self), ticket),
    {
        match self.queue.locate(ticket.value, 0) {
            Some(at) => {
                let ghost before = *self;
                let _ = self.remove_queued(at);
                let ghost gone = *self;
                self.counters.cancellations = self.counters.cancellations.saturating_add(1);
                proof {
                    assert(before.queue.slots@[at as int].ticket == ticket.value);
                    lemma_removed_ticket_gone(before, gone, at as int);
                    assert(self.queue == gone.queue);
                    assert(slot_removed(before, *self, at as int));
                    assert(cancelled_at(before, *self, ticket, at as int));
                }
                true
            },
            None => false,
        }
    }

    /// Find the first overdue request that is not being offered.
    fn find_expired<B: PushQueueWorkBudget>(
        &self,
        observed_at: Timestamp,
        budget: &mut B,
    ) -> (result: Result<Option<usize>, PushAdmissionError>)
        requires
            self.wf(),
            observed_at.in_range(),
        ensures
            result is Ok && self.queue.slots@.len() > 0 ==> B::answers(1, true),
            result is Ok ==> spent_within(
                old(budget).allowance(),
                final(budget).allowance(),
                self.queue.slots@.len() as int,
            ),
            self.queue.slots@.len() == 0 ==> result == Ok::<Option<usize>, PushAdmissionError>(
                None,
            ),
            match result {
                Ok(Some(at)) => {
                    &&& at < self.queue.slots@.len()
                    &&& expired(self.queue, at as int, observed_at)
                    &&& forall|j: int| 0 <= j < at ==> !#[trigger] expired(self.queue, j, observed_at)
                },
                Ok(None) => none_expired(self.queue, observed_at),
                Err(error) => {
                    &&& error == PushAdmissionError::WorkBudget
                    &&& self.queue.slots@.len() > 0
                    &&& B::answers(1, false)
                    &&& short_of(old(budget).allowance(), self.queue.slots@.len() as int)
                },
            },
    {
        let mut at: usize = 0;
        while at < self.queue.slots.len()
            invariant
                self.wf(),
                observed_at.in_range(),
                at <= self.queue.slots@.len(),
                at > 0 ==> B::answers(1, true),
                spent_within(old(budget).allowance(), budget.allowance(), at as int),
                forall|j: int| 0 <= j < at ==> !#[trigger] expired(self.queue, j, observed_at),
            decreases self.queue.slots.len() - at,
        {
            if !budget.charge(1) {
                return Err(PushAdmissionError::WorkBudget);
            }
            let slot = &self.queue.slots[at];
            assert(slot_sound(self.queue.slots@[at as int], self.limits));
            if is_overdue(observed_at, slot.request.service_estimate, slot.request.deadline)
                && !self.queue.is_dispatching(slot.ticket) {
                return Ok(Some(at));
            }
            assert(!expired(self.queue, at as int, observed_at));
            at = at + 1;
        }
        Ok(None)
    }

    /// Return whether every scope of a slot has the credit.
    fn has_deficit(&self, at: usize, cost: u64) -> (covered: bool)
        requires
            self.wf(),
            at < self.queue.slots@.len(),
        ensures
            covered == credit_covers(
                self.queue,
                self.queue.slots@[at as int].request.identity,
                cost,
            ),
    {
        let slot = &self.queue.slots[at];
        assert(slot_sound(self.queue.slots@[at as int], self.limits));
        let mut kind: usize = 0;
        while kind < 3
            invariant
                kind <= 3,
                keys_of(slot.keys@, slot.request.identity),
                self.queue.scopes@.len() == 3,
                slot == self.queue.slots@[at as int],
                forall|k: int|
                    0 <= k < kind ==> cost <= usage_of(
                        #[trigger] self.queue.scope(k),
                        scope_key(slot.request.identity, k),
                    ).credit(),
            decreases 3 - kind,
        {
            let usage: ScopeUsage = self.queue.scopes[kind].usage(&slot.keys[kind]);
            proof {
                assert(slot.keys@[kind as int]@ == scope_key(slot.request.identity, kind as int));
                assert(usage == usage_of(
                    self.queue.scope(kind as int),
                    scope_key(slot.request.identity, kind as int),
                ));
            }
            if !covers(usage, cost) {
                return false;
            }
            kind = kind + 1;
        }
        true
    }

    /// Return the cost of a request if it is eligible.
    fn check_eligible(&self, at: usize, observed_at: Timestamp) -> (cost: Option<u64>)
        requires
            self.wf(),
            observed_at.in_range(),
            at < self.queue.slots@.len(),
        ensures
            cost is Some <==> eligible(
                self.queue,
                self.backend,
                at as int,
                observed_at,
                self.limits,
            ),
            cost is Some ==> cost->0 == cost_now(
                self.queue.slots@[at as int].request,
                observed_at,
                self.limits,
            ),
    {
        let slot = &self.queue.slots[at];
        assert(slot_sound(self.queue.slots@[at as int], self.limits));
        if self.queue.is_dispatching(slot.ticket) || observed_at.unix_nanos
            < slot.request.submitted_at.unix_nanos {
            return None;
        }
        if is_overdue(observed_at, slot.request.service_estimate, slot.request.deadline)
            || !self.backend.can_admit(slot.request.cost, self.limits) {
            return None;
        }
        let cost: u64 = effective_cost(&slot.request, observed_at, self.limits);
        if self.has_deficit(at, cost) {
            Some(cost)
        } else {
            None
        }
    }

    /// Return whether an eligible request is large.
    fn any_large(&self, observed_at: Timestamp) -> (large: bool)
        requires
            self.wf(),
            observed_at.in_range(),
        ensures
            large == large_waits(self.queue, self.backend, observed_at, self.limits),
    {
        let mut at: usize = 0;
        while at < self.queue.slots.len()
            invariant
                self.wf(),
                observed_at.in_range(),
                at <= self.queue.slots@.len(),
                forall|i: int|
                    0 <= i < at ==> !(#[trigger] eligible(
                        self.queue,
                        self.backend,
                        i,
                        observed_at,
                        self.limits,
                    ) && !small(self.queue.slots@[i].request, self.limits)),
            decreases self.queue.slots.len() - at,
        {
            if self.queue.slots[at].request.cost.fair_service_units > self.limits.small_push_units
                && self.check_eligible(at, observed_at).is_some() {
                assert(eligible(self.queue, self.backend, at as int, observed_at, self.limits));
                return true;
            }
            at = at + 1;
        }
        false
    }

    /// Find the first candidate behind the cursor, and its cost.
    fn find_candidate<B: PushQueueWorkBudget>(
        &self,
        observed_at: Timestamp,
        force_large: bool,
        budget: &mut B,
    ) -> (result: Result<Option<(usize, u64, Ghost<int>)>, PushAdmissionError>)
        requires
            self.wf(),
            observed_at.in_range(),
        ensures
            result is Ok && self.queue.slots@.len() > 0 ==> B::answers(1, true),
            result is Ok ==> spent_within(
                old(budget).allowance(),
                final(budget).allowance(),
                self.queue.slots@.len() as int,
            ),
            match result {
                Ok(Some((at, cost, offset))) => {
                    let len = self.queue.slots@.len();
                    &&& 0 <= offset@ < len
                    &&& at == rotated(self.queue.cursor, offset@, len)
                    &&& 0 <= at < len
                    &&& candidate(
                        self.queue,
                        self.backend,
                        at as int,
                        observed_at,
                        self.limits,
                        force_large,
                    )
                    &&& cost == cost_now(
                        self.queue.slots@[at as int].request,
                        observed_at,
                        self.limits,
                    )
                    &&& forall|o: int|
                        0 <= o < offset@ ==> !#[trigger] candidate(
                            self.queue,
                            self.backend,
                            rotated(self.queue.cursor, o, len),
                            observed_at,
                            self.limits,
                            force_large,
                        )
                },
                Ok(None) => none_candidate(
                    self.queue,
                    self.backend,
                    observed_at,
                    self.limits,
                    force_large,
                ),
                Err(error) => {
                    &&& error == PushAdmissionError::WorkBudget
                    &&& self.queue.slots@.len() > 0
                    &&& B::answers(1, false)
                    &&& short_of(old(budget).allowance(), self.queue.slots@.len() as int)
                },
            },
    {
        let len: usize = self.queue.slots.len();
        if len == 0 {
            return Ok(None);
        }
        let start: usize = self.queue.cursor % len;
        let mut offset: usize = 0;
        while offset < len
            invariant
                self.wf(),
                observed_at.in_range(),
                len == self.queue.slots@.len(),
                len > 0,
                start == self.queue.cursor as int % len as int,
                offset <= len,
                offset > 0 ==> B::answers(1, true),
                spent_within(old(budget).allowance(), budget.allowance(), offset as int),
                forall|o: int|
                    0 <= o < offset ==> !#[trigger] candidate(
                        self.queue,
                        self.backend,
                        rotated(self.queue.cursor, o, self.queue.slots@.len()),
                        observed_at,
                        self.limits,
                        force_large,
                    ),
            decreases len - offset,
        {
            if !budget.charge(1) {
                return Err(PushAdmissionError::WorkBudget);
            }
            proof {
                lemma_rotated(self.queue.cursor, offset as int, len as nat);
            }
            let at: usize = if offset < len - start {
                start + offset
            } else {
                offset - (len - start)
            };
            let is_small: bool = self.queue.slots[at].request.cost.fair_service_units
                <= self.limits.small_push_units;
            if !(force_large && is_small) {
                match self.check_eligible(at, observed_at) {
                    Some(cost) => {
                        return Ok(Some((at, cost, Ghost(offset as int))));
                    },
                    None => {},
                }
            }
            assert(!candidate(
                self.queue,
                self.backend,
                at as int,
                observed_at,
                self.limits,
                force_large,
            ));
            offset = offset + 1;
        }
        proof {
            lemma_scan_covers(self.queue, self.backend, observed_at, self.limits, force_large);
        }
        Ok(None)
    }
}

/// Nothing may be offered.
pub open spec fn none_candidate(
    queue: FairQueue<PushAdmissionRequest>,
    backend: BackendUsage,
    observed_at: Timestamp,
    limits: PushQueueLimits,
    force_large: bool,
) -> bool {
    forall|i: int|
        0 <= i < queue.slots@.len() ==> !#[trigger] candidate(
            queue,
            backend,
            i,
            observed_at,
            limits,
            force_large,
        )
}

/// Scanning every offset scans every request.
proof fn lemma_scan_covers(
    queue: FairQueue<PushAdmissionRequest>,
    backend: BackendUsage,
    observed_at: Timestamp,
    limits: PushQueueLimits,
    force_large: bool,
)
    requires
        forall|o: int|
            0 <= o < queue.slots@.len() ==> !#[trigger] candidate(
                queue,
                backend,
                rotated(queue.cursor, o, queue.slots@.len()),
                observed_at,
                limits,
                force_large,
            ),
    ensures
        none_candidate(queue, backend, observed_at, limits, force_large),
{
    let len = queue.slots@.len();
    assert forall|i: int| 0 <= i < len implies !#[trigger] candidate(
        queue,
        backend,
        i,
        observed_at,
        limits,
        force_large,
    ) by {
        lemma_rotated(queue.cursor, 0, len);
        let start = queue.cursor as int % len as int;
        let o = if i >= start {
            i - start
        } else {
            i + len - start
        };
        lemma_rotated(queue.cursor, o, len);
        assert(rotated(queue.cursor, o, len) == i);
    }
}

/// The request at `at` was cancelled.
pub open spec fn cancelled_at(
    before: PushQueueState,
    after: PushQueueState,
    ticket: PushAdmissionTicket,
    at: int,
) -> bool {
    &&& slot_removed(before, after, at)
    &&& before.queue.slots@[at].ticket == ticket.value
    &&& after.counters == (PushCounters {
        cancellations: bumped(before.counters.cancellations),
        ..before.counters
    })
    &&& after.queue.cursor == before.queue.cursor
    &&& after.queue.dispatching@ == before.queue.dispatching@
    &&& after.backend == before.backend
    &&& after.active == before.active
    &&& after.consecutive_small == before.consecutive_small
    &&& after.same_clock(before)
}

/// One waiting request was cancelled.
pub open spec fn one_cancelled(
    before: PushQueueState,
    after: PushQueueState,
    ticket: PushAdmissionTicket,
) -> bool {
    exists|at: int| #[trigger] cancelled_at(before, after, ticket, at)
}

/// A removed request no longer waits.
proof fn lemma_removed_ticket_gone(before: PushQueueState, after: PushQueueState, at: int)
    requires
        before.wf(),
        slot_removed(before, after, at),
    ensures
        !after.queue.waits(before.queue.slots@[at].ticket),
{
    let gone = before.queue.slots@[at].ticket;
    assert forall|i: int| 0 <= i < after.queue.slots@.len() implies (
    #[trigger] after.queue.slots@[i]).ticket != gone by {
        if i < at {
            assert(after.queue.slots@[i] == before.queue.slots@[i]);
            assert(before.queue.slots@[i].ticket < before.queue.slots@[at].ticket);
        } else {
            assert(after.queue.slots@[i] == before.queue.slots@[i + 1]);
            assert(before.queue.slots@[at].ticket < before.queue.slots@[i + 1].ticket);
        }
    }
}

/// The queue after the credit of a logical round, which each round gives once.
pub open spec fn credit_given(
    before: PushQueueState,
    after: FairQueue<PushAdmissionRequest>,
    logical_round: u64,
) -> bool {
    &&& after.same_but_credit(before.queue)
    &&& forall|kind: int|
        0 <= kind < 3 ==> #[trigger] after.scope(kind) == if logical_round > before.last_round {
            credited(
                before.queue.scope(kind),
                before.limits.fair_quantum,
                before.limits.max_deficit,
            )
        } else {
            before.queue.scope(kind)
        }
}

/// Whether a large push must be offered: enough small ones passed while one was eligible.
pub open spec fn must_serve_large(
    before: PushQueueState,
    ready: FairQueue<PushAdmissionRequest>,
    observed_at: Timestamp,
) -> bool {
    before.consecutive_small >= before.limits.max_small_bypass && large_waits(
        ready,
        before.backend,
        observed_at,
        before.limits,
    )
}

/// Small grants in a row that still count: none where no large push could be served.
pub open spec fn run_kept(
    before: PushQueueState,
    ready: FairQueue<PushAdmissionRequest>,
    observed_at: Timestamp,
) -> u32 {
    if large_waits(ready, before.backend, observed_at, before.limits) {
        before.consecutive_small
    } else {
        0
    }
}

/// The first overdue request leaves.
pub open spec fn expires(
    before: PushQueueState,
    after: PushQueueState,
    observed_at: Timestamp,
    ticket: PushAdmissionTicket,
    at: int,
) -> bool {
    &&& slot_removed(before, after, at)
    &&& before.queue.slots@[at].ticket == ticket.value
    &&& expired(before.queue, at, observed_at)
    &&& forall|j: int| 0 <= j < at ==> !#[trigger] expired(before.queue, j, observed_at)
    &&& after.queue.dispatching@ == before.queue.dispatching@
    &&& after.queue.cursor == before.queue.cursor
    &&& after.counters == (PushCounters {
        rejections: bumped(before.counters.rejections),
        ..before.counters
    })
}

/// Some overdue request is the first, and leaves.
pub open spec fn one_expires(
    before: PushQueueState,
    after: PushQueueState,
    observed_at: Timestamp,
    ticket: PushAdmissionTicket,
) -> bool {
    exists|at: int| #[trigger] expires(before, after, observed_at, ticket, at)
}

/// The first candidate behind the cursor is offered and pays for it.
pub open spec fn offers(
    before: PushQueueState,
    ready: FairQueue<PushAdmissionRequest>,
    after: PushQueueState,
    observed_at: Timestamp,
    offer: PushOffer,
    request: AdmissionRequest,
    offset: int,
) -> bool {
    let len = ready.slots@.len();
    let at = rotated(ready.cursor, offset, len);
    let slot = ready.slots@[at];
    let force_large = must_serve_large(before, ready, observed_at);
    &&& 0 <= offset < len
    &&& candidate(ready, before.backend, at, observed_at, before.limits, force_large)
    &&& forall|o: int|
        0 <= o < offset ==> !#[trigger] candidate(
            ready,
            before.backend,
            rotated(ready.cursor, o, len),
            observed_at,
            before.limits,
            force_large,
        )
    &&& offer.index == at
    &&& offer.ticket.value == slot.ticket
    &&& offer.cost == cost_now(slot.request, observed_at, before.limits)
    &&& keys_of(offer.keys@, slot.request.identity)
    &&& slot.request.submits(request)
    &&& after.consecutive_small == run_kept(before, ready, observed_at)
    &&& after.queue.slots@ == ready.slots@
    &&& after.queue.next_ticket == ready.next_ticket
    &&& after.queue.queued_bytes == ready.queued_bytes
    &&& after.queue.cursor == ready.cursor
    &&& after.queue.dispatching@ == ready.dispatching@.push(slot.ticket)
    &&& forall|kind: int|
        0 <= kind < 3 ==> #[trigger] after.queue.scope(kind) == debited(
            ready.scope(kind),
            scope_key(slot.request.identity, kind),
            offer.cost,
        )
}

/// Some candidate is the first, and is offered.
pub open spec fn one_offered(
    before: PushQueueState,
    after: PushQueueState,
    logical_round: u64,
    observed_at: Timestamp,
    offer: PushOffer,
    request: AdmissionRequest,
) -> bool {
    exists|ready: FairQueue<PushAdmissionRequest>, offset: int|
        credit_given(before, ready, logical_round) && #[trigger] offers(
            before,
            ready,
            after,
            observed_at,
            offer,
            request,
            offset,
        )
}

/// The latest round that gave credit.
pub open spec fn round_after(last_round: u64, logical_round: u64) -> u64 {
    if logical_round > last_round {
        logical_round
    } else {
        last_round
    }
}

/// What one scan may do: remove the first overdue request; otherwise give credit and offer the first
/// candidate, if there is one.
pub open spec fn selection_follows(
    before: PushQueueState,
    after: PushQueueState,
    logical_round: u64,
    observed_at: Timestamp,
    selection: PushSelection,
) -> bool {
    &&& after.limits == before.limits
    &&& after.last_observed_at == Some(observed_at)
    &&& after.backend == before.backend
    &&& after.active == before.active
    &&& match selection {
        PushSelection::Waiting { queued } => {
            &&& queued == before.queue.slots@.len()
            &&& after.counters == before.counters
            &&& if queued == 0 {
                &&& after.queue == before.queue
                &&& after.last_round == before.last_round
                &&& after.consecutive_small == before.consecutive_small
            } else {
                &&& after.consecutive_small == run_kept(before, after.queue, observed_at)
                &&& none_expired(before.queue, observed_at)
                &&& credit_given(before, after.queue, logical_round)
                &&& none_candidate(
                    after.queue,
                    before.backend,
                    observed_at,
                    before.limits,
                    must_serve_large(before, after.queue, observed_at),
                )
                &&& after.last_round == round_after(before.last_round, logical_round)
            }
        },
        PushSelection::Expired { ticket } => {
            &&& one_expires(before, after, observed_at, ticket)
            &&& after.last_round == before.last_round
            &&& after.consecutive_small == before.consecutive_small
        },
        PushSelection::Offer { offer, request } => {
            &&& none_expired(before.queue, observed_at)
            &&& one_offered(before, after, logical_round, observed_at, offer, request)
            &&& after.last_round == round_after(before.last_round, logical_round)
            &&& after.counters == before.counters
        },
    }
}

/// Observed time or logical round moved backwards.
pub open spec fn observation_moved_back(
    state: PushQueueState,
    logical_round: u64,
    observed_at: Timestamp,
) -> bool {
    moved_back(state.last_observed_at, observed_at) || logical_round < state.last_round
}

impl PushQueueState {
    /// Give the credit of a logical round once.
    fn add_deficits<B: PushQueueWorkBudget>(
        &mut self,
        logical_round: u64,
        budget: &mut B,
    ) -> (result: Result<(), PushAdmissionError>)
        requires
            old(self).wf(),
        ensures
            final(self).wf(),
            result is Ok ==> spent_within(
                old(budget).allowance(),
                final(budget).allowance(),
                old(self).queue.slots@.len() as int,
            ),
            match result {
                Ok(()) => {
                    &&& credit_given(*old(self), final(self).queue, logical_round)
                    &&& logical_round > old(self).last_round ==> B::answers(
                        old(self).queue.slots@.len() as u64,
                        true,
                    )
                    &&& *final(self) == (PushQueueState {
                        queue: final(self).queue,
                        last_round: round_after(old(self).last_round, logical_round),
                        ..*old(self)
                    })
                },
                Err(error) => {
                    &&& error == PushAdmissionError::WorkBudget
                    &&& B::answers(old(self).queue.slots@.len() as u64, false)
                    &&& short_of(old(budget).allowance(), old(self).queue.slots@.len() as int)
                    &&& *final(self) == *old(self)
                },
            },
    {
        if logical_round <= self.last_round {
            return Ok(());
        }
        if !budget.charge(self.queue.slots.len() as u64) {
            return Err(PushAdmissionError::WorkBudget);
        }
        let ghost before = *self;
        self.queue.credit(self.limits.fair_quantum, self.limits.max_deficit);
        self.last_round = logical_round;
        proof {
            assert forall|kind: int| 0 <= kind < 3 implies quota_kept(
                #[trigger] self.queue.scope(kind),
                self.limits.spec_quota(kind),
            ) && credit_bounded(self.queue.scope(kind), self.limits.max_deficit) by {
                assert(quota_kept(before.queue.scope(kind), self.limits.spec_quota(kind)));
                lemma_credit_keeps_bounds(
                    before.queue.scope(kind),
                    (Seq::empty(), Seq::empty()),
                    self.limits.fair_quantum,
                    self.limits.spec_quota(kind),
                    self.limits.max_deficit,
                );
            }
        }
        Ok(())
    }

    /// Offer a request: note it and take its service units.
    fn begin_offer(&mut self, at: usize, cost: u64) -> (begun: Result<
        (PushOffer, AdmissionRequest),
        PushAdmissionError,
    >)
        requires
            old(self).wf(),
            at < old(self).queue.slots@.len(),
            !old(self).queue.dispatching@.contains(old(self).queue.slots@[at as int].ticket),
        ensures
            begun is Ok,
            final(self).wf(),
            final(self).same_but_queue(*old(self)),
            ({
                let (offer, request) = begun->Ok_0;
                let slot = old(self).queue.slots@[at as int];
                &&& keys_of(offer.keys@, slot.request.identity)
                &&& offer.index == at
                &&& offer.cost == cost
                &&& offer.ticket.value == slot.ticket
                &&& slot.request.submits(request)
                &&& final(self).queue.slots@ == old(self).queue.slots@
                &&& final(self).queue.next_ticket == old(self).queue.next_ticket
                &&& final(self).queue.queued_bytes == old(self).queue.queued_bytes
                &&& final(self).queue.cursor == old(self).queue.cursor
                &&& final(self).queue.dispatching@ == old(self).queue.dispatching@.push(
                    slot.ticket,
                )
                &&& forall|kind: int|
                    0 <= kind < 3 ==> #[trigger] final(self).queue.scope(kind) == debited(
                        old(self).queue.scope(kind),
                        scope_key(slot.request.identity, kind),
                        cost,
                    )
            }),
    {
        let ghost before = *self;
        let ghost slot = before.queue.slots@[at as int];
        assert(slot_sound(before.queue.slots@[at as int], before.limits));
        let ticket: u64 = self.queue.slots[at].ticket;
        let request = self.queue.slots[at].request.shared_request()?;
        let keys: Vec<ScopeKey> = make_keys(&self.queue.slots[at].request.identity);
        self.queue.begin_dispatch(ticket);
        let ghost noted = *self;
        self.queue.debit(&keys, cost);
        proof {
            assert forall|kind: int| 0 <= kind < 3 implies #[trigger] self.queue.scope(kind)
                == debited(
                before.queue.scope(kind),
                scope_key(slot.request.identity, kind),
                cost,
            ) by {
                assert(noted.queue.scope(kind) == before.queue.scope(kind));
                assert(keys@[kind]@ == scope_key(slot.request.identity, kind));
            }
            assert forall|kind: int| 0 <= kind < 3 implies quota_kept(
                #[trigger] self.queue.scope(kind),
                self.limits.spec_quota(kind),
            ) && credit_bounded(self.queue.scope(kind), self.limits.max_deficit) by {
                assert(quota_kept(before.queue.scope(kind), self.limits.spec_quota(kind)));
                lemma_credit_keeps_bounds(
                    before.queue.scope(kind),
                    scope_key(slot.request.identity, kind),
                    cost,
                    self.limits.spec_quota(kind),
                    self.limits.max_deficit,
                );
            }
        }
        Ok((PushOffer { ticket: PushAdmissionTicket { value: ticket }, index: at, cost, keys }, request))
    }

    /// Run one scan of the queue for a logical round.
    ///
    /// A scan that runs out of budget leaves every request waiting.
    pub fn select<B: PushQueueWorkBudget>(
        &mut self,
        logical_round: u64,
        observed_at: Timestamp,
        budget: &mut B,
    ) -> (result: Result<PushSelection, PushAdmissionError>)
        requires
            old(self).wf(),
            observed_at.in_range(),
        ensures
            final(self).wf(),
            final(self).limits == old(self).limits,
            observation_moved_back(*old(self), logical_round, observed_at) ==> result == Err::<
                PushSelection,
                PushAdmissionError,
            >(PushAdmissionError::NonMonotonicObservation) && *final(self) == *old(self),
            !observation_moved_back(*old(self), logical_round, observed_at)
                && old(self).queue.slots@.len() == 0 ==> result is Ok,
            result matches Ok(selection) ==> charges_granted::<B>(
                *old(self),
                selection is Expired,
            ),
            match result {
                Ok(selection) => selection_follows(
                    *old(self),
                    *final(self),
                    logical_round,
                    observed_at,
                    selection,
                ),
                Err(error) => {
                    &&& error == PushAdmissionError::NonMonotonicObservation
                        <==> observation_moved_back(*old(self), logical_round, observed_at)
                    &&& error == PushAdmissionError::NonMonotonicObservation || {
                        &&& error == PushAdmissionError::WorkBudget
                        &&& scan_refused::<B>(*old(self))
                        &&& short_of(
                            old(budget).allowance(),
                            4 * old(self).queue.slots@.len() as int,
                        )
                        &&& scan_stopped(*old(self), *final(self), logical_round, observed_at)
                    }
                },
            },
    {
        if time_moved_back(self.last_observed_at, observed_at) || logical_round < self.last_round {
            return Err(PushAdmissionError::NonMonotonicObservation);
        }
        let ghost first = *self;
        self.last_observed_at = Some(observed_at);
        match self.find_expired(observed_at, budget)? {
            Some(at) => {
                let slot = self.remove_queued(at);
                let ticket = PushAdmissionTicket { value: slot.ticket };
                let ghost gone = *self;
                self.counters.rejections = self.counters.rejections.saturating_add(1);
                proof {
                    assert(self.queue == gone.queue);
                    assert(slot_removed(first, *self, at as int));
                    assert(expires(first, *self, observed_at, ticket, at as int));
                    assert(one_expires(first, *self, observed_at, ticket));
                }
                return Ok(PushSelection::Expired { ticket });
            },
            None => {},
        }
        if self.queue.slots.len() == 0 {
            return Ok(PushSelection::Waiting { queued: 0 });
        }
        self.add_deficits(logical_round, budget)?;
        let ghost ready = self.queue;
        assert(credit_given(first, ready, logical_round));
        if !budget.charge(self.queue.slots.len() as u64) {
            return Err(PushAdmissionError::WorkBudget);
        }
        let large: bool = self.any_large(observed_at);
        let force_large: bool = self.consecutive_small >= self.limits.max_small_bypass && large;
        if !large {
            self.consecutive_small = 0;
        }
        assert(force_large == must_serve_large(first, ready, observed_at));
        match self.find_candidate(observed_at, force_large, budget)? {
            Some((at, cost, offset)) => {
                let (offer, request) = self.begin_offer(at, cost)?;
                proof {
                    assert(offers(
                        first,
                        ready,
                        *self,
                        observed_at,
                        offer,
                        request,
                        offset@,
                    ));
                    assert(one_offered(
                        first,
                        *self,
                        logical_round,
                        observed_at,
                        offer,
                        request,
                    ));
                }
                Ok(PushSelection::Offer { offer, request })
            },
            None => Ok(PushSelection::Waiting { queued: self.queue.slots.len() }),
        }
    }
}

/// What the end of an offer does to the queue: the offer is over, the request at `at` may leave, and
/// the scopes may get their units back.
pub open spec fn queue_after_offer(
    before: PushQueueState,
    after: FairQueue<PushAdmissionRequest>,
    offer: PushOffer,
    at: int,
    remove: bool,
    refund: bool,
) -> bool {
    let slot = before.queue.slots@[at];
    &&& offer_ended(before.queue.dispatching@, after.dispatching@, offer.ticket.value)
    &&& after.next_ticket == before.queue.next_ticket
    &&& remove ==> 0 <= at < before.queue.slots@.len() && slot.ticket == offer.ticket.value
    &&& after.slots@ == if remove {
        before.queue.slots@.remove(at)
    } else {
        before.queue.slots@
    }
    &&& forall|kind: int|
        0 <= kind < 3 ==> #[trigger] after.scope(kind) == credit_after(
            if remove {
                discharged(
                    before.queue.scope(kind),
                    scope_key(slot.request.identity, kind),
                    slot.bytes,
                )
            } else {
                before.queue.scope(kind)
            },
            offer.keys@[kind]@,
            offer.cost,
            before.limits.max_deficit,
            refund,
        )
}

/// An offer of a request that no longer waits has ended, and its scopes got their units back.
pub open spec fn offer_withdrawn(
    before: PushQueueState,
    after: PushQueueState,
    offer: PushOffer,
) -> bool {
    &&& queue_after_offer(before, after.queue, offer, 0, false, true)
    &&& after.queue.cursor == before.queue.cursor
    &&& after.same_but_queue(before)
}

/// An offer of the request that waits at `at` has ended.
pub open spec fn offer_finished(
    before: PushQueueState,
    after: PushQueueState,
    offer: PushOffer,
    remove: bool,
    refund: bool,
    at: int,
) -> bool {
    let len = after.queue.slots@.len();
    &&& 0 <= at < before.queue.slots@.len()
    &&& before.queue.slots@[at].ticket == offer.ticket.value
    &&& queue_after_offer(before, after.queue, offer, at, remove, refund)
    &&& after.queue.cursor == if len == 0 {
        0
    } else if remove {
        at % len as int
    } else {
        (at + 1) % len as int
    }
    &&& after.counters == if remove {
        (PushCounters { rejections: bumped(before.counters.rejections), ..before.counters })
    } else {
        before.counters
    }
    &&& after.backend == before.backend
    &&& after.active == before.active
    &&& after.consecutive_small == before.consecutive_small
    &&& after.same_clock(before)
}

/// What ending an offer that was not granted may do.
pub open spec fn finish_follows(
    before: PushQueueState,
    after: PushQueueState,
    offer: PushOffer,
    remove: bool,
    refund: bool,
    finished: bool,
) -> bool {
    if !before.queue.dispatching@.contains(offer.ticket.value) {
        !finished && after == before
    } else if !before.queue.waits(offer.ticket.value) {
        !finished && offer_withdrawn(before, after, offer)
    } else {
        finished && exists|at: int| #[trigger]
            offer_finished(before, after, offer, remove, refund, at)
    }
}

/// What came of a granted offer.
#[derive(Debug)]
pub enum PushGrant {
    /// The request left the queue and holds push-only capacity.
    Accepted {
        /// The request.
        request: PushAdmissionRequest,
        /// When it was granted.
        observed_at: Timestamp,
    },
    /// Push-only capacity is occupied; the request still waits.
    Waiting,
    /// The request left the queue, but can no longer finish.
    Deadline,
    /// The request had left the queue before.
    Cancelled,
}

/// The time at which a grant is judged.
pub open spec fn grant_time(
    last_observed_at: Option<Timestamp>,
    request: PushAdmissionRequest,
) -> Timestamp {
    match last_observed_at {
        Some(observed_at) => observed_at,
        None => request.submitted_at,
    }
}

/// Small grants in a row after one more grant.
pub open spec fn small_run_after(run: u32, is_small: bool) -> u32 {
    if !is_small {
        0
    } else if run == u32::MAX {
        run
    } else {
        (run + 1) as u32
    }
}

/// What a grant of the request that waits at `at` does.
pub open spec fn grant_finished(
    before: PushQueueState,
    after: PushQueueState,
    offer: PushOffer,
    grant: PushGrant,
    at: int,
) -> bool {
    let request = before.queue.slots@[at].request;
    let now = grant_time(before.last_observed_at, request);
    let late = overdue(now, request.service_estimate, request.deadline);
    let room = before.backend.admits(request.cost, before.limits) && before.active < usize::MAX;
    &&& 0 <= at < before.queue.slots@.len()
    &&& before.queue.slots@[at].ticket == offer.ticket.value
    &&& after.queue.cursor == before.queue.cursor
    &&& after.same_clock(before)
    &&& if late {
        &&& grant is Deadline
        &&& queue_after_offer(before, after.queue, offer, at, true, true)
        &&& after.counters == (PushCounters {
            rejections: bumped(before.counters.rejections),
            ..before.counters
        })
        &&& after.backend == before.backend
        &&& after.active == before.active
        &&& after.consecutive_small == before.consecutive_small
    } else if !room {
        &&& grant is Waiting
        &&& queue_after_offer(before, after.queue, offer, at, false, true)
        &&& after.same_but_queue(before)
    } else {
        &&& grant == (PushGrant::Accepted { request, observed_at: now })
        &&& queue_after_offer(before, after.queue, offer, at, true, false)
        &&& Some(after.backend) == before.backend.spec_add(request.cost)
        &&& after.active == before.active + 1
        &&& after.counters == (PushCounters {
            grants: bumped(before.counters.grants),
            ..before.counters
        })
        &&& after.consecutive_small == small_run_after(
            before.consecutive_small,
            small(request, before.limits),
        )
    }
}

/// What a grant may do.
pub open spec fn grant_follows(
    before: PushQueueState,
    after: PushQueueState,
    offer: PushOffer,
    grant: PushGrant,
) -> bool {
    if !before.queue.dispatching@.contains(offer.ticket.value) {
        grant is Cancelled && after == before
    } else if !before.queue.waits(offer.ticket.value) {
        grant is Cancelled && offer_withdrawn(before, after, offer)
    } else {
        exists|at: int| #[trigger] grant_finished(before, after, offer, grant, at)
    }
}

/// Moving the cursor keeps every bound and record.
proof fn lemma_cursor_keeps_wf(before: PushQueueState, after: PushQueueState)
    requires
        before.wf(),
        after.limits == before.limits,
        after.last_observed_at == before.last_observed_at,
        after.backend == before.backend,
        after.queue.slots == before.queue.slots,
        after.queue.scopes == before.queue.scopes,
        after.queue.next_ticket == before.queue.next_ticket,
        after.queue.queued_bytes == before.queue.queued_bytes,
        after.queue.dispatching == before.queue.dispatching,
    ensures
        after.wf(),
{
    assert forall|kind: int| 0 <= kind < 3 implies #[trigger] after.queue.scope(kind)
        == before.queue.scope(kind) by {}
    assert(after.queue.wf()) by {
        assert forall|kind: int| 0 <= kind < after.queue.scopes@.len() implies scope_matches(
            #[trigger] after.queue.scope(kind),
            slot_charges(after.queue.slots@, kind),
        ) by {
            assert(after.queue.scope(kind) == before.queue.scope(kind));
        }
    }
    assert forall|kind: int| 0 <= kind < 3 implies quota_kept(
        #[trigger] after.queue.scope(kind),
        after.limits.spec_quota(kind),
    ) && credit_bounded(after.queue.scope(kind), after.limits.max_deficit) by {
        assert(quota_kept(before.queue.scope(kind), before.limits.spec_quota(kind)));
    }
}

impl PushQueueState {
    /// End the note that a request is being offered, and say where it waits.
    fn close_offer(&mut self, offer: &PushOffer) -> (place: Option<Option<usize>>)
        requires
            old(self).wf(),
            offer.wf(),
        ensures
            final(self).wf(),
            final(self).same_but_queue(*old(self)),
            final(self).queue.cursor == old(self).queue.cursor,
            place is None <==> !old(self).queue.dispatching@.contains(offer.ticket.value),
            place is None ==> *final(self) == *old(self),
            place is Some ==> {
                &&& queue_after_offer(*old(self), final(self).queue, *offer, 0, false, false)
                &&& match place->0 {
                    Some(at) => at < old(self).queue.slots@.len()
                        && old(self).queue.slots@[at as int].ticket == offer.ticket.value,
                    None => !old(self).queue.waits(offer.ticket.value),
                }
            },
    {
        let ghost before = *self;
        let ticket: u64 = offer.ticket.value;
        if !self.queue.end_dispatch(ticket) {
            return None;
        }
        proof {
            assert forall|kind: int| 0 <= kind < 3 implies #[trigger] self.queue.scope(kind)
                == before.queue.scope(kind) by {}
            assert(self.queue.waits(ticket) == before.queue.waits(ticket));
            assert forall|kind: int| 0 <= kind < 3 implies quota_kept(
                #[trigger] self.queue.scope(kind),
                self.limits.spec_quota(kind),
            ) && credit_bounded(self.queue.scope(kind), self.limits.max_deficit) by {
                assert(quota_kept(before.queue.scope(kind), before.limits.spec_quota(kind)));
            }
        }
        Some(self.queue.locate(ticket, offer.index))
    }

    /// Remove the request at `at` and perhaps refund, after its offer was closed.
    fn settle(&mut self, offer: &PushOffer, at: usize, remove: bool, refund: bool) -> (removed:
        Option<QueueSlot<PushAdmissionRequest>>)
        requires
            old(self).wf(),
            offer.wf(),
            at < old(self).queue.slots@.len(),
        ensures
            final(self).wf(),
            final(self).same_but_queue(*old(self)),
            final(self).queue.cursor == old(self).queue.cursor,
            final(self).queue.dispatching@ == old(self).queue.dispatching@,
            final(self).queue.next_ticket == old(self).queue.next_ticket,
            remove <==> removed is Some,
            remove ==> removed->0 == old(self).queue.slots@[at as int],
            final(self).queue.slots@ == if remove {
                old(self).queue.slots@.remove(at as int)
            } else {
                old(self).queue.slots@
            },
            forall|kind: int|
                0 <= kind < 3 ==> #[trigger] final(self).queue.scope(kind) == credit_after(
                    if remove {
                        discharged(
                            old(self).queue.scope(kind),
                            scope_key(old(self).queue.slots@[at as int].request.identity, kind),
                            old(self).queue.slots@[at as int].bytes,
                        )
                    } else {
                        old(self).queue.scope(kind)
                    },
                    offer.keys@[kind]@,
                    offer.cost,
                    old(self).limits.max_deficit,
                    refund,
                ),
    {
        let removed = if remove {
            Some(self.remove_queued(at))
        } else {
            None
        };
        let ghost middle = *self;
        if refund {
            self.refund_deficits(&offer.keys, offer.cost);
        }
        proof {
            assert forall|kind: int| 0 <= kind < 3 implies #[trigger] self.queue.scope(kind)
                == credit_after(
                middle.queue.scope(kind),
                offer.keys@[kind]@,
                offer.cost,
                self.limits.max_deficit,
                refund,
            ) by {}
        }
        removed
    }

    /// End an offer that was not granted, and return whether its request still waited.
    pub fn finish_dispatch(&mut self, offer: &PushOffer, remove: bool, refund: bool) -> (finished:
        bool)
        requires
            old(self).wf(),
            offer.wf(),
        ensures
            final(self).wf(),
            final(self).same_clock(*old(self)),
            finish_follows(*old(self), *final(self), *offer, remove, refund, finished),
    {
        let ghost before = *self;
        let at: usize = match self.close_offer(offer) {
            None => {
                return false;
            },
            Some(None) => {
                let ghost closed = *self;
                self.refund_deficits(&offer.keys, offer.cost);
                proof {
                    assert forall|kind: int| 0 <= kind < 3 implies #[trigger] self.queue.scope(kind)
                        == refunded(
                        before.queue.scope(kind),
                        offer.keys@[kind]@,
                        offer.cost,
                        before.limits.max_deficit,
                    ) by {
                        assert(closed.queue.scope(kind) == before.queue.scope(kind));
                    }
                    assert(offer_withdrawn(before, *self, *offer));
                }
                return false;
            },
            Some(Some(at)) => at,
        };
        let ghost closed = *self;
        let _ = self.settle(offer, at, remove, refund);
        let ghost settled = *self;
        let len: usize = self.queue.slots.len();
        let next: usize = if len == 0 {
            0
        } else if remove {
            at % len
        } else if at + 1 == len {
            0
        } else {
            at + 1
        };
        self.queue.cursor = next;
        if remove {
            self.counters.rejections = self.counters.rejections.saturating_add(1);
        }
        proof {
            lemma_cursor_keeps_wf(settled, *self);
            assert forall|kind: int| 0 <= kind < 3 implies #[trigger] self.queue.scope(kind)
                == settled.queue.scope(kind) && closed.queue.scope(kind) == before.queue.scope(
                kind,
            ) by {}
            if !remove {
                if at + 1 == len {
                    vstd::arithmetic::div_mod::lemma_mod_self_0(len as int);
                } else {
                    vstd::arithmetic::div_mod::lemma_small_mod((at + 1) as nat, len as nat);
                }
            }
            assert(queue_after_offer(before, self.queue, *offer, at as int, remove, refund));
            assert(offer_finished(before, *self, *offer, remove, refund, at as int));
        }
        true
    }

    /// End an offer that the controller granted: reserve push-only capacity if there is room.
    pub fn finish_granted(&mut self, offer: &PushOffer) -> (grant: PushGrant)
        requires
            old(self).wf(),
            offer.wf(),
        ensures
            final(self).wf(),
            final(self).same_clock(*old(self)),
            grant_follows(*old(self), *final(self), *offer, grant),
    {
        let ghost before = *self;
        let at: usize = match self.close_offer(offer) {
            None => {
                return PushGrant::Cancelled;
            },
            Some(None) => {
                let ghost closed = *self;
                self.refund_deficits(&offer.keys, offer.cost);
                proof {
                    assert forall|kind: int| 0 <= kind < 3 implies #[trigger] self.queue.scope(kind)
                        == refunded(
                        before.queue.scope(kind),
                        offer.keys@[kind]@,
                        offer.cost,
                        before.limits.max_deficit,
                    ) by {
                        assert(closed.queue.scope(kind) == before.queue.scope(kind));
                    }
                    assert(offer_withdrawn(before, *self, *offer));
                }
                return PushGrant::Cancelled;
            },
            Some(Some(at)) => at,
        };
        let ghost closed = *self;
        assert(slot_sound(before.queue.slots@[at as int], before.limits));
        assert forall|kind: int| 0 <= kind < 3 implies #[trigger] closed.queue.scope(kind)
            == before.queue.scope(kind) by {}
        let cost: PushAdmissionCost = self.queue.slots[at].request.cost;
        let observed_at: Timestamp = match self.last_observed_at {
            Some(observed_at) => observed_at,
            None => self.queue.slots[at].request.submitted_at,
        };
        if is_overdue(
            observed_at,
            self.queue.slots[at].request.service_estimate,
            self.queue.slots[at].request.deadline,
        ) {
            let _ = self.settle(offer, at, true, true);
            let ghost settled = *self;
            self.counters.rejections = self.counters.rejections.saturating_add(1);
            proof {
                lemma_cursor_keeps_wf(settled, *self);
                assert(self.queue == settled.queue);
                assert(queue_after_offer(before, self.queue, *offer, at as int, true, true));
                assert(grant_finished(before, *self, *offer, PushGrant::Deadline, at as int));
            }
            return PushGrant::Deadline;
        }
        let room: Option<BackendUsage> = match self.backend.checked_add(cost) {
            Some(usage) => if usage.fits(self.limits) && self.active < usize::MAX {
                Some(usage)
            } else {
                None
            },
            None => None,
        };
        let backend: BackendUsage = match room {
            Some(usage) => usage,
            None => {
                let _ = self.settle(offer, at, false, true);
                proof {
                    assert(queue_after_offer(before, self.queue, *offer, at as int, false, true));
                    assert(grant_finished(before, *self, *offer, PushGrant::Waiting, at as int));
                }
                return PushGrant::Waiting;
            },
        };
        match self.settle(offer, at, true, false) {
            Some(slot) => {
                let ghost settled = *self;
                self.backend = backend;
                self.active = self.active + 1;
                self.counters.grants = self.counters.grants.saturating_add(1);
                if cost.fair_service_units <= self.limits.small_push_units {
                    self.consecutive_small = self.consecutive_small.saturating_add(1);
                } else {
                    self.consecutive_small = 0;
                }
                let grant = PushGrant::Accepted { request: slot.request, observed_at };
                proof {
                    assert(self.queue == settled.queue);
                    assert forall|kind: int| 0 <= kind < 3 implies quota_kept(
                        #[trigger] self.queue.scope(kind),
                        self.limits.spec_quota(kind),
                    ) && credit_bounded(self.queue.scope(kind), self.limits.max_deficit) by {
                        assert(quota_kept(
                            settled.queue.scope(kind),
                            settled.limits.spec_quota(kind),
                        ));
                    }
                    assert(queue_after_offer(before, self.queue, *offer, at as int, true, false));
                    assert(grant_finished(before, *self, *offer, grant, at as int));
                }
                grant
            },
            None => PushGrant::Cancelled,
        }
    }

    /// Give push-only capacity back.
    fn release(&mut self, cost: PushAdmissionCost)
        requires
            old(self).wf(),
        ensures
            final(self).wf(),
            *final(self) == released(*old(self), cost),
    {
        match self.backend.checked_sub(cost) {
            Some(backend) => {
                if self.active > 0 {
                    let ghost before = *self;
                    self.backend = backend;
                    self.active = self.active - 1;
                    proof {
                        assert(self.queue == before.queue);
                        assert forall|kind: int| 0 <= kind < 3 implies quota_kept(
                            #[trigger] self.queue.scope(kind),
                            self.limits.spec_quota(kind),
                        ) && credit_bounded(self.queue.scope(kind), self.limits.max_deficit) by {
                            assert(quota_kept(
                                before.queue.scope(kind),
                                before.limits.spec_quota(kind),
                            ));
                        }
                    }
                }
            },
            None => {},
        }
    }
}

/// The state after one active push gave its capacity back.
pub open spec fn released(state: PushQueueState, cost: PushAdmissionCost) -> PushQueueState {
    match state.backend.spec_sub(cost) {
        Some(backend) => if state.active > 0 {
            PushQueueState { backend, active: (state.active - 1) as usize, ..state }
        } else {
            state
        },
        None => state,
    }
}

/// Ordered push phase.
#[derive(Clone, Copy, Debug, PartialEq, Eq, Structural)]
pub enum PushExecutionPhase {
    /// Resources are granted; no input is consumed.
    Admitted,
    /// Input streaming is about to begin.
    Input,
    /// Quarantine writing is about to begin.
    Quarantine,
    /// Validation is about to begin.
    Validation,
    /// Promotion is about to begin.
    Promotion,
    /// Atomic publication is about to begin.
    Publication,
    /// Publication is durable; cancellation no longer changes the result.
    Published,
    /// Output has started.
    OutputStarted,
}

impl PushExecutionPhase {
    /// The position of the phase.
    pub open spec fn rank(self) -> int {
        match self {
            PushExecutionPhase::Admitted => 0,
            PushExecutionPhase::Input => 1,
            PushExecutionPhase::Quarantine => 2,
            PushExecutionPhase::Validation => 3,
            PushExecutionPhase::Promotion => 4,
            PushExecutionPhase::Publication => 5,
            PushExecutionPhase::Published => 6,
            PushExecutionPhase::OutputStarted => 7,
        }
    }

    /// Publication is durable in this phase.
    pub open spec fn spec_durable(self) -> bool {
        self.rank() >= PushExecutionPhase::Published.rank()
    }

    /// Return whether publication is durable in this phase.
    pub fn durable(self) -> (durable: bool)
        ensures
            durable == self.spec_durable(),
    {
        match self {
            PushExecutionPhase::Published => true,
            PushExecutionPhase::OutputStarted => true,
            _ => false,
        }
    }

    fn position(self) -> (position: u8)
        ensures
            position == self.rank(),
    {
        match self {
            PushExecutionPhase::Admitted => 0,
            PushExecutionPhase::Input => 1,
            PushExecutionPhase::Quarantine => 2,
            PushExecutionPhase::Validation => 3,
            PushExecutionPhase::Promotion => 4,
            PushExecutionPhase::Publication => 5,
            PushExecutionPhase::Published => 6,
            PushExecutionPhase::OutputStarted => 7,
        }
    }
}

/// A phase may only be followed by the next one.
pub fn valid_phase_transition(current: PushExecutionPhase, next: PushExecutionPhase) -> (valid: bool)
    ensures
        valid == (next.rank() == current.rank() + 1),
{
    next.position() == current.position() + 1
}

/// Terminal push outcome.
#[derive(Clone, Copy, Debug, PartialEq, Eq, Structural)]
pub enum PushExecutionOutcome {
    /// Publication and status succeeded.
    Published,
    /// The push was rejected before publication.
    Rejected,
    /// The backend failed before publication.
    BackendFailure,
}

/// Permit of a granted push: shared capacity, push-only capacity, and the phase reached.
#[derive(Debug)]
pub struct PushExecutionPermit<P> {
    admission: Option<P>,
    cost: PushAdmissionCost,
    phase: PushExecutionPhase,
    deadline: Timestamp,
    last_observed_at: Timestamp,
    publication_recorded: bool,
}

/// Why a phase may not be entered, if it may not.
pub open spec fn phase_fault(
    phase: PushExecutionPhase,
    next: PushExecutionPhase,
    permit_deadline: Timestamp,
    last_observed_at: Timestamp,
    observed_at: Timestamp,
    deadline: Timestamp,
    cancelled: bool,
) -> Option<PushAdmissionError> {
    if next.rank() != phase.rank() + 1 {
        Some(PushAdmissionError::InvalidPhase)
    } else if next.spec_durable() {
        None
    } else if deadline != permit_deadline || observed_at.unix_nanos < last_observed_at.unix_nanos {
        Some(PushAdmissionError::NonMonotonicObservation)
    } else if cancelled {
        Some(PushAdmissionError::Cancelled)
    } else if observed_at.unix_nanos >= permit_deadline.unix_nanos {
        Some(PushAdmissionError::Deadline)
    } else {
        None
    }
}

/// Once publication is durable, no cancellation and no deadline keeps the next phase from being
/// entered.
pub proof fn law_publication_cannot_be_cancelled(
    phase: PushExecutionPhase,
    next: PushExecutionPhase,
    permit_deadline: Timestamp,
    last_observed_at: Timestamp,
    observed_at: Timestamp,
    deadline: Timestamp,
    cancelled: bool,
)
    requires
        next.spec_durable(),
        next.rank() == phase.rank() + 1,
    ensures
        phase_fault(
            phase,
            next,
            permit_deadline,
            last_observed_at,
            observed_at,
            deadline,
            cancelled,
        ) is None,
{
}

/// The counts after a terminal outcome.
pub open spec fn counters_after_outcome(
    counters: PushCounters,
    outcome: PushExecutionOutcome,
) -> PushCounters {
    PushCounters {
        completed: bumped(counters.completed),
        rejected_terminal: if outcome == PushExecutionOutcome::Rejected {
            bumped(counters.rejected_terminal)
        } else {
            counters.rejected_terminal
        },
        backend_failures: if outcome == PushExecutionOutcome::BackendFailure {
            bumped(counters.backend_failures)
        } else {
            counters.backend_failures
        },
        ..counters
    }
}

/// The counts after an abort; a recorded publication still counts as completed.
pub open spec fn counters_after_abort(counters: PushCounters, recorded: bool) -> PushCounters {
    PushCounters {
        completed: if recorded {
            bumped(counters.completed)
        } else {
            counters.completed
        },
        aborted: bumped(counters.aborted),
        ..counters
    }
}

impl<P> PushExecutionPermit<P> {
    /// The phase reached.
    pub closed spec fn spec_phase(self) -> PushExecutionPhase {
        self.phase
    }

    /// The push-only capacity held.
    pub closed spec fn spec_cost(self) -> PushAdmissionCost {
        self.cost
    }

    /// The deadline.
    pub closed spec fn spec_deadline(self) -> Timestamp {
        self.deadline
    }

    /// The latest observation.
    pub closed spec fn spec_observed_at(self) -> Timestamp {
        self.last_observed_at
    }

    /// Whether publication was recorded.
    pub closed spec fn recorded(self) -> bool {
        self.publication_recorded
    }

    /// Publication is recorded exactly when it is durable.
    pub open spec fn wf(self) -> bool {
        self.recorded() == self.spec_phase().spec_durable()
    }

    /// An outcome fits the phase reached.
    pub open spec fn outcome_fits(self, outcome: PushExecutionOutcome) -> bool {
        match outcome {
            PushExecutionOutcome::Published => self.spec_phase().spec_durable(),
            _ => !self.spec_phase().spec_durable(),
        }
    }

    /// Hold granted capacity.
    pub fn new(
        admission: P,
        cost: PushAdmissionCost,
        deadline: Timestamp,
        observed_at: Timestamp,
    ) -> (permit: Self)
        ensures
            permit.wf(),
            permit.spec_phase() == PushExecutionPhase::Admitted,
            permit.spec_cost() == cost,
            permit.spec_deadline() == deadline,
            permit.spec_observed_at() == observed_at,
            !permit.recorded(),
    {
        PushExecutionPermit {
            admission: Some(admission),
            cost,
            phase: PushExecutionPhase::Admitted,
            deadline,
            last_observed_at: observed_at,
            publication_recorded: false,
        }
    }

    /// Return the phase reached.
    pub fn phase(&self) -> (phase: PushExecutionPhase)
        ensures
            phase == self.spec_phase(),
    {
        self.phase
    }

    /// Enter the next phase after checking time and cancellation.
    ///
    /// Before publication a cancellation or deadline aborts; from publication on both are ignored.
    pub fn checkpoint(
        &mut self,
        state: &mut PushQueueState,
        next: PushExecutionPhase,
        observed_at: Timestamp,
        deadline: Timestamp,
        cancelled: bool,
    ) -> (result: Result<(), PushAdmissionError>)
        requires
            old(self).wf(),
        ensures
            final(self).wf(),
            final(self).spec_cost() == old(self).spec_cost(),
            final(self).spec_deadline() == old(self).spec_deadline(),
            match phase_fault(
                old(self).spec_phase(),
                next,
                old(self).spec_deadline(),
                old(self).spec_observed_at(),
                observed_at,
                deadline,
                cancelled,
            ) {
                Some(error) => {
                    &&& result == Err::<(), PushAdmissionError>(error)
                    &&& *final(self) == *old(self)
                    &&& *final(state) == *old(state)
                },
                None => {
                    &&& result is Ok
                    &&& final(self).spec_phase() == next
                    &&& final(self).spec_observed_at() == if next.spec_durable() {
                        old(self).spec_observed_at()
                    } else {
                        observed_at
                    }
                    &&& *final(state) == if next == PushExecutionPhase::Published {
                        (PushQueueState {
                            counters: (PushCounters {
                                published: bumped(old(state).counters.published),
                                ..old(state).counters
                            }),
                            ..*old(state)
                        })
                    } else {
                        *old(state)
                    }
                },
            },
    {
        if !valid_phase_transition(self.phase, next) {
            return Err(PushAdmissionError::InvalidPhase);
        }
        if !next.durable() {
            if deadline != self.deadline || observed_at.unix_nanos
                < self.last_observed_at.unix_nanos {
                return Err(PushAdmissionError::NonMonotonicObservation);
            }
            if cancelled {
                return Err(PushAdmissionError::Cancelled);
            }
            if observed_at.unix_nanos >= self.deadline.unix_nanos {
                return Err(PushAdmissionError::Deadline);
            }
            self.last_observed_at = observed_at;
        }
        if next == PushExecutionPhase::Published && !self.publication_recorded {
            state.counters.published = state.counters.published.saturating_add(1);
            self.publication_recorded = true;
        }
        self.phase = next;
        Ok(())
    }

    /// Record one terminal outcome and release every reservation.
    ///
    /// An outcome that does not fit the phase counts as an abort.
    pub fn finish(self, state: &mut PushQueueState, outcome: PushExecutionOutcome) -> (result: Result<
        (),
        PushAdmissionError,
    >)
        requires
            self.wf(),
            old(state).wf(),
        ensures
            final(state).wf(),
            result == if self.outcome_fits(outcome) {
                Ok::<(), PushAdmissionError>(())
            } else {
                Err(PushAdmissionError::InvalidPhase)
            },
            *final(state) == released(
                (PushQueueState {
                    counters: if self.outcome_fits(outcome) {
                        counters_after_outcome(old(state).counters, outcome)
                    } else {
                        counters_after_abort(old(state).counters, self.recorded())
                    },
                    ..*old(state)
                }),
                self.spec_cost(),
            ),
    {
        let valid: bool = match outcome {
            PushExecutionOutcome::Published => self.phase.durable() && self.publication_recorded,
            _ => !self.phase.durable(),
        };
        if !valid {
            self.abort(state);
            return Err(PushAdmissionError::InvalidPhase);
        }
        let ghost before = *state;
        state.counters.completed = state.counters.completed.saturating_add(1);
        match outcome {
            PushExecutionOutcome::Published => {},
            PushExecutionOutcome::Rejected => {
                state.counters.rejected_terminal =
                state.counters.rejected_terminal.saturating_add(1);
            },
            PushExecutionOutcome::BackendFailure => {
                state.counters.backend_failures =
                state.counters.backend_failures.saturating_add(1);
            },
        }
        proof {
            lemma_counters_keep_wf(before, *state);
        }
        state.release(self.cost);
        let mut permit = self;
        let _ = permit.admission.take();
        Ok(())
    }

    /// Give up without a terminal outcome, and release every reservation.
    pub fn abort(self, state: &mut PushQueueState)
        requires
            old(state).wf(),
        ensures
            final(state).wf(),
            *final(state) == released(
                (PushQueueState {
                    counters: counters_after_abort(old(state).counters, self.recorded()),
                    ..*old(state)
                }),
                self.spec_cost(),
            ),
    {
        let ghost before = *state;
        if self.publication_recorded {
            state.counters.completed = state.counters.completed.saturating_add(1);
        }
        state.counters.aborted = state.counters.aborted.saturating_add(1);
        proof {
            lemma_counters_keep_wf(before, *state);
        }
        state.release(self.cost);
        let mut permit = self;
        let _ = permit.admission.take();
    }
}

/// Counting keeps every bound and record.
proof fn lemma_counters_keep_wf(before: PushQueueState, after: PushQueueState)
    requires
        before.wf(),
        after == (PushQueueState { counters: after.counters, ..before }),
    ensures
        after.wf(),
{
    assert forall|kind: int| 0 <= kind < 3 implies quota_kept(
        #[trigger] after.queue.scope(kind),
        after.limits.spec_quota(kind),
    ) && credit_bounded(after.queue.scope(kind), after.limits.max_deficit) by {
        assert(quota_kept(before.queue.scope(kind), before.limits.spec_quota(kind)));
    }
}

/// Scheduler metrics without identities.
#[derive(Clone, Copy, Debug, PartialEq, Eq, Structural)]
pub struct PushAdmissionSnapshot {
    /// Queued pushes.
    pub queued: usize,
    /// Retained bytes.
    pub queued_bytes: u64,
    /// Active pushes.
    pub active: usize,
    /// Active workers.
    pub active_workers: usize,
    /// Active range requests.
    pub active_ranges: usize,
    /// Active multipart uploads.
    pub active_multipart: usize,
    /// Active quarantine bytes.
    pub active_quarantine_bytes: u64,
    /// Grants.
    pub grants: u64,
    /// Rejections.
    pub rejections: u64,
    /// Cancellations.
    pub cancellations: u64,
    /// Terminal outcomes.
    pub completed: u64,
    /// Durable publications.
    pub published: u64,
    /// Rejections before publication.
    pub rejected_terminal: u64,
    /// Backend failures before publication.
    pub backend_failures: u64,
    /// Aborted permits.
    pub aborted: u64,
}

impl PushQueueState {
    /// The metrics.
    pub open spec fn spec_snapshot(self) -> PushAdmissionSnapshot {
        PushAdmissionSnapshot {
            queued: self.queue.slots@.len() as usize,
            queued_bytes: self.queue.queued_bytes,
            active: self.active,
            active_workers: self.backend.workers,
            active_ranges: self.backend.ranges,
            active_multipart: self.backend.multipart,
            active_quarantine_bytes: self.backend.quarantine_bytes,
            grants: self.counters.grants,
            rejections: self.counters.rejections,
            cancellations: self.counters.cancellations,
            completed: self.counters.completed,
            published: self.counters.published,
            rejected_terminal: self.counters.rejected_terminal,
            backend_failures: self.counters.backend_failures,
            aborted: self.counters.aborted,
        }
    }

    /// Return the metrics.
    pub fn snapshot(&self) -> (snapshot: PushAdmissionSnapshot)
        ensures
            snapshot == self.spec_snapshot(),
    {
        PushAdmissionSnapshot {
            queued: self.queue.slots.len(),
            queued_bytes: self.queue.queued_bytes,
            active: self.active,
            active_workers: self.backend.workers,
            active_ranges: self.backend.ranges,
            active_multipart: self.backend.multipart,
            active_quarantine_bytes: self.backend.quarantine_bytes,
            grants: self.counters.grants,
            rejections: self.counters.rejections,
            cancellations: self.counters.cancellations,
            completed: self.counters.completed,
            published: self.counters.published,
            rejected_terminal: self.counters.rejected_terminal,
            backend_failures: self.counters.backend_failures,
            aborted: self.counters.aborted,
        }
    }
}

/// One poll result.
#[derive(Debug)]
pub enum PushScheduleDecision<P> {
    /// Nothing can be granted in this round.
    Waiting {
        /// Requests waiting.
        queued: usize,
    },
    /// One request holds all its capacity.
    Granted {
        /// Its ticket.
        ticket: PushAdmissionTicket,
        /// The request.
        request: PushAdmissionRequest,
        /// Its permit.
        permit: PushExecutionPermit<P>,
    },
    /// One request was removed.
    Rejected {
        /// Its ticket.
        ticket: PushAdmissionTicket,
        /// Why, and when to try again.
        rejection: PushAdmissionRejection,
    },
}

/// The request at `at` left, and it had this ticket.
pub open spec fn left_at(
    before: Seq<QueueSlot<PushAdmissionRequest>>,
    after: Seq<QueueSlot<PushAdmissionRequest>>,
    ticket: u64,
    at: int,
) -> bool {
    0 <= at < before.len() && before[at].ticket == ticket && after == before.remove(at)
}

/// Exactly one request left, and it had this ticket.
pub open spec fn one_left(
    before: Seq<QueueSlot<PushAdmissionRequest>>,
    after: Seq<QueueSlot<PushAdmissionRequest>>,
    ticket: u64,
) -> bool {
    exists|at: int| #[trigger] left_at(before, after, ticket, at)
}

/// Exactly one request left, and it was this one.
pub open spec fn one_granted(
    before: Seq<QueueSlot<PushAdmissionRequest>>,
    after: Seq<QueueSlot<PushAdmissionRequest>>,
    ticket: u64,
    request: PushAdmissionRequest,
) -> bool {
    exists|at: int| #[trigger] left_at(before, after, ticket, at) && before[at].request == request
}

/// The same requests wait, and one more offer is out.
spec fn offer_out(before: PushQueueState, chosen: PushQueueState, offer: PushOffer) -> bool {
    let ticket = offer.ticket.value;
    &&& chosen.queue.slots@ == before.queue.slots@
    &&& chosen.queue.waits(ticket)
    &&& chosen.queue.dispatching@.contains(ticket)
    &&& !before.queue.dispatching@.contains(ticket)
    &&& forall|other: u64|
        other != ticket ==> (#[trigger] chosen.queue.dispatching@.contains(other)
            == before.queue.dispatching@.contains(other))
    &&& chosen.backend == before.backend
    &&& chosen.active == before.active
    &&& chosen.counters == before.counters
}

/// An offered request waits, and its offer is out.
proof fn lemma_offer_is_out(
    before: PushQueueState,
    chosen: PushQueueState,
    logical_round: u64,
    observed_at: Timestamp,
    offer: PushOffer,
    request: AdmissionRequest,
)
    requires
        one_offered(before, chosen, logical_round, observed_at, offer, request),
        chosen.backend == before.backend,
        chosen.active == before.active,
        chosen.counters == before.counters,
    ensures
        offer.wf(),
        offer_out(before, chosen, offer),
{
    let (ready, offset) = choose|ready: FairQueue<PushAdmissionRequest>, offset: int|
        credit_given(before, ready, logical_round) && #[trigger] offers(
            before,
            ready,
            chosen,
            observed_at,
            offer,
            request,
            offset,
        );
    let at = rotated(ready.cursor, offset, ready.slots@.len());
    lemma_rotated(ready.cursor, offset, ready.slots@.len());
    assert(chosen.queue.slots@[at].ticket == offer.ticket.value);
    let old_tickets = before.queue.dispatching@;
    let new_tickets = chosen.queue.dispatching@;
    assert(new_tickets[old_tickets.len() as int] == offer.ticket.value);
    assert forall|other: u64| other != offer.ticket.value implies (#[trigger] new_tickets.contains(
        other,
    ) == old_tickets.contains(other)) by {
        if old_tickets.contains(other) {
            let i = choose|i: int| 0 <= i < old_tickets.len() && old_tickets[i] == other;
            assert(new_tickets[i] == other);
        }
        if new_tickets.contains(other) {
            let i = choose|i: int| 0 <= i < new_tickets.len() && new_tickets[i] == other;
            assert(old_tickets[i] == other);
        }
    }
}

/// The same offers are out as before an offer that has ended.
spec fn offers_restored(before: PushQueueState, after: PushQueueState) -> bool {
    forall|ticket: u64| #[trigger]
        after.queue.dispatching@.contains(ticket) == before.queue.dispatching@.contains(ticket)
}

/// Ending an offer restores which offers are out.
proof fn lemma_offers_restored(
    before: PushQueueState,
    chosen: PushQueueState,
    after: PushQueueState,
    offer: PushOffer,
)
    requires
        offer_out(before, chosen, offer),
        offer_ended(
            chosen.queue.dispatching@,
            after.queue.dispatching@,
            offer.ticket.value,
        ),
    ensures
        offers_restored(before, after),
{
    assert forall|ticket: u64| #[trigger]
        after.queue.dispatching@.contains(ticket) == before.queue.dispatching@.contains(ticket) by {
        if ticket != offer.ticket.value {
            assert(chosen.queue.dispatching@.contains(ticket)
                == before.queue.dispatching@.contains(ticket));
        }
    }
}

/// Ending an offer keeps or takes the offered request.
proof fn lemma_finish(
    before: PushQueueState,
    chosen: PushQueueState,
    after: PushQueueState,
    offer: PushOffer,
    remove: bool,
)
    requires
        offer_out(before, chosen, offer),
        finish_follows(chosen, after, offer, remove, true, true),
    ensures
        offers_restored(before, after),
        remove ==> one_left(before.queue.slots@, after.queue.slots@, offer.ticket.value),
        !remove ==> after.queue.slots@ == before.queue.slots@,
        after.backend == before.backend,
        after.active == before.active,
{
    let at = choose|at: int| #[trigger] offer_finished(chosen, after, offer, remove, true, at);
    assert(offer_finished(chosen, after, offer, remove, true, at));
    lemma_offers_restored(before, chosen, after, offer);
    if remove {
        assert(left_at(before.queue.slots@, after.queue.slots@, offer.ticket.value, at));
    }
}

/// A grant keeps or takes the offered request.
proof fn lemma_grant(
    before: PushQueueState,
    chosen: PushQueueState,
    after: PushQueueState,
    offer: PushOffer,
    grant: PushGrant,
)
    requires
        offer_out(before, chosen, offer),
        grant_follows(chosen, after, offer, grant),
    ensures
        offers_restored(before, after),
        grant !is Cancelled,
        grant is Waiting ==> after.queue.slots@ == before.queue.slots@,
        grant is Deadline ==> one_left(
            before.queue.slots@,
            after.queue.slots@,
            offer.ticket.value,
        ),
        grant !is Accepted ==> after.backend == before.backend && after.active == before.active,
        grant is Accepted ==> {
            let request = grant->request;
            &&& one_granted(
                before.queue.slots@,
                after.queue.slots@,
                offer.ticket.value,
                request,
            )
            &&& Some(after.backend) == before.backend.spec_add(request.cost)
            &&& after.active == before.active + 1
        },
{
    let at = choose|at: int| #[trigger] grant_finished(chosen, after, offer, grant, at);
    assert(grant_finished(chosen, after, offer, grant, at));
    lemma_offers_restored(before, chosen, after, offer);
    if grant !is Waiting {
        assert(left_at(before.queue.slots@, after.queue.slots@, offer.ticket.value, at));
    }
}

/// The rejection of a request that can no longer finish.
pub open spec fn too_late() -> PushAdmissionRejection {
    PushAdmissionRejection {
        reason: PushAdmissionRejectReason::Deadline,
        retry: RetryGuidance::DoNotRetry,
    }
}

/// How a round ends: the scan decides alone where nothing is offered; an offered request is granted,
/// removed or left waiting as the controller answers, and leaves the accounts in order.
pub open spec fn round_follows<P>(
    before: PushQueueState,
    chosen: PushQueueState,
    after: PushQueueState,
    logical_round: u64,
    observed_at: Timestamp,
    selection: PushSelection,
    result: Result<PushScheduleDecision<P>, PushAdmissionError>,
) -> bool {
    &&& selection_follows(before, chosen, logical_round, observed_at, selection)
    &&& after.same_clock(chosen)
    &&& match selection {
        PushSelection::Waiting { queued } => {
            &&& after == chosen
            &&& result matches Ok(PushScheduleDecision::Waiting { queued: reported })
            &&& reported == queued
        },
        PushSelection::Expired { ticket } => {
            &&& after == chosen
            &&& result matches Ok(PushScheduleDecision::Rejected { ticket: removed, rejection })
            &&& removed == ticket
            &&& rejection == too_late()
        },
        PushSelection::Offer { offer, .. } => match result {
            Ok(PushScheduleDecision::Granted { ticket, request, .. }) => {
                &&& ticket == offer.ticket
                &&& grant_follows(
                    chosen,
                    after,
                    offer,
                    (PushGrant::Accepted {
                        request,
                        observed_at: grant_time(chosen.last_observed_at, request),
                    }),
                )
            },
            Ok(PushScheduleDecision::Rejected { ticket, rejection }) => {
                &&& ticket == offer.ticket
                &&& {
                    ||| finish_follows(chosen, after, offer, true, true, true)
                    ||| rejection == too_late() && grant_follows(
                        chosen,
                        after,
                        offer,
                        PushGrant::Deadline,
                    )
                }
            },
            Ok(PushScheduleDecision::Waiting { queued }) => {
                &&& queued == before.queue.slots@.len()
                &&& {
                    ||| finish_follows(chosen, after, offer, false, true, true)
                    ||| grant_follows(chosen, after, offer, PushGrant::Waiting)
                }
            },
            Err(error) => error is Admission && finish_follows(
                chosen,
                after,
                offer,
                false,
                true,
                true,
            ),
        },
    }
}

/// The round ends as the controller answered.
pub open spec fn answer_heeded<P>(
    answer: Result<AdmissionOutcome, AdmissionConfigError>,
    result: Result<PushScheduleDecision<P>, PushAdmissionError>,
) -> bool {
    match answer {
        Ok(AdmissionOutcome::Granted) => result is Ok,
        Ok(AdmissionOutcome::Queued) => result matches Ok(PushScheduleDecision::Waiting { .. }),
        Ok(AdmissionOutcome::Rejected { reason, retry }) => result matches Ok(PushScheduleDecision::Rejected {
                rejection,
                ..
            }) && rejection == (PushAdmissionRejection {
                reason: mapped_reason(reason),
                retry,
            }),
        Err(error) => result == Err::<PushScheduleDecision<P>, PushAdmissionError>(
            PushAdmissionError::Admission(error),
        ),
    }
}

/// The controller was asked about an offered request alone, and its answer was heeded; a permit is
/// given only where it granted one.
pub open spec fn controller_heeded<P>(
    told: Seq<AdmissionExchange>,
    tells: Seq<AdmissionExchange>,
    observed_at: Timestamp,
    selection: PushSelection,
    result: Result<PushScheduleDecision<P>, PushAdmissionError>,
) -> bool {
    match selection {
        PushSelection::Offer { request, .. } => exists|
            answer: Result<AdmissionOutcome, AdmissionConfigError>,
        |
            #[trigger] asked(told, tells, request, observed_at, answer) && answer_heeded(
                answer,
                result,
            ) && (result matches Ok(PushScheduleDecision::Granted { .. }) ==> answer matches Ok(
                AdmissionOutcome::Granted,
            )),
        _ => tells == told,
    }
}

/// The round ends in order.
pub open spec fn poll_follows<P>(
    before: PushQueueState,
    after: PushQueueState,
    told: Seq<AdmissionExchange>,
    tells: Seq<AdmissionExchange>,
    logical_round: u64,
    observed_at: Timestamp,
    result: Result<PushScheduleDecision<P>, PushAdmissionError>,
) -> bool {
    exists|chosen: PushQueueState, selection: PushSelection| #[trigger]
        round_follows(before, chosen, after, logical_round, observed_at, selection, result)
            && controller_heeded(told, tells, observed_at, selection, result)
}

/// Fair push queue over a shared weighted controller.
pub struct PushAdmissionScheduler<A: AdmissionController> {
    admission: A,
    state: PushQueueState,
}

impl<A: AdmissionController> PushAdmissionScheduler<A> {
    /// The queue.
    pub closed spec fn spec_state(self) -> PushQueueState {
        self.state
    }

    /// What the controller was asked and answered so far.
    pub closed spec fn spec_exchanges(self) -> Seq<AdmissionExchange> {
        self.admission.exchanges()
    }

    /// Create a scheduler over a controller.
    pub fn new(admission: A, limits: PushQueueLimits) -> (result: Result<Self, PushAdmissionError>)
        ensures
            limits.valid() <==> result is Ok,
            !limits.valid() ==> result->Err_0 == PushAdmissionError::InvalidQueueLimits,
            result is Ok ==> {
                let state = result->Ok_0.spec_state();
                &&& state.wf()
                &&& state.limits == limits
                &&& state.queue.slots@.len() == 0
            },
    {
        match PushQueueState::new(limits) {
            Ok(state) => Ok(PushAdmissionScheduler { admission, state }),
            Err(error) => Err(error),
        }
    }

    /// Borrow the queue, to enter phases and finish permits.
    pub fn state_mut(&mut self) -> (state: &mut PushQueueState)
        ensures
            *state == old(self).spec_state(),
            final(self).spec_state() == *final(state),
    {
        &mut self.state
    }

    /// Validate and queue one push before reading input or writing quarantine bytes.
    pub fn enqueue(&mut self, request: PushAdmissionRequest) -> (result: Result<
        PushAdmissionTicket,
        PushAdmissionError,
    >)
        requires
            old(self).spec_state().wf(),
            request.times_in_range(),
        ensures
            final(self).spec_state().wf(),
            final(self).spec_exchanges() == old(self).spec_exchanges(),
            match old(self).spec_state().enqueue_fault(request) {
                Some(error) => {
                    &&& result == Err::<PushAdmissionTicket, PushAdmissionError>(error)
                    &&& final(self).spec_state() == if error == PushAdmissionError::QueueFull {
                        (PushQueueState {
                            counters: (PushCounters {
                                rejections: bumped(old(self).spec_state().counters.rejections),
                                ..old(self).spec_state().counters
                            }),
                            ..old(self).spec_state()
                        })
                    } else {
                        old(self).spec_state()
                    }
                },
                None => {
                    let before = old(self).spec_state().queue;
                    let after = final(self).spec_state().queue;
                    &&& result is Ok
                    &&& result->Ok_0.value == before.next_ticket
                    &&& final(self).spec_state().same_but_queue(old(self).spec_state())
                    &&& after.next_ticket == before.next_ticket + 1
                    &&& forall|kind: int|
                        0 <= kind < 3 ==> #[trigger] after.scope(kind) == charged(
                            before.scope(kind),
                            scope_key(request.identity, kind),
                            request.queued_bytes,
                        )
                    &&& after.cursor == before.cursor
                    &&& after.dispatching@ == before.dispatching@
                    &&& after.slots@.len() == before.slots@.len() + 1
                    &&& after.slots@.drop_last() == before.slots@
                    &&& after.slots@.last().request == request
                    &&& after.slots@.last().ticket == result->Ok_0.value
                },
            },
    {
        self.state.enqueue(request)
    }

    /// Cancel a queued request, and return whether it waited.
    pub fn cancel(&mut self, ticket: PushAdmissionTicket) -> (removed: bool)
        requires
            old(self).spec_state().wf(),
        ensures
            final(self).spec_state().wf(),
            removed == old(self).spec_state().queue.waits(ticket.value),
            !final(self).spec_state().queue.waits(ticket.value),
            !removed ==> final(self).spec_state() == old(self).spec_state(),
            removed ==> one_cancelled(old(self).spec_state(), final(self).spec_state(), ticket),
            final(self).spec_exchanges() == old(self).spec_exchanges(),
    {
        self.state.cancel(ticket)
    }

    /// Return scheduler metrics.
    pub fn snapshot(&self) -> (snapshot: PushAdmissionSnapshot)
        ensures
            snapshot == self.spec_state().spec_snapshot(),
    {
        self.state.snapshot()
    }

    /// Run one logical round with the caller's time and pressure.
    pub fn poll_next<B: PushQueueWorkBudget>(
        &mut self,
        logical_round: u64,
        observed_at: Timestamp,
        pressure: &A::Pressure,
        budget: &mut B,
        cancelled: bool,
    ) -> (result: Result<PushScheduleDecision<A::Permit>, PushAdmissionError>)
        requires
            old(self).spec_state().wf(),
            observed_at.in_range(),
        ensures
            final(self).spec_state().wf(),
            final(self).spec_state().limits == old(self).spec_state().limits,
            cancelled ==> result == Err::<PushScheduleDecision<A::Permit>, PushAdmissionError>(
                PushAdmissionError::Cancelled,
            ) && final(self).spec_state() == old(self).spec_state(),
            !cancelled && logical_round == 0 ==> result == Err::<
                PushScheduleDecision<A::Permit>,
                PushAdmissionError,
            >(PushAdmissionError::NonMonotonicObservation) && final(self).spec_state()
                == old(self).spec_state(),
            observation_moved_back(old(self).spec_state(), logical_round, observed_at)
                ==> final(self).spec_state() == old(self).spec_state(),
            !cancelled && logical_round != 0 ==> {
                ||| A::pressure_answers(*pressure, Ok(())) && (observation_moved_back(old(self).spec_state(), logical_round, observed_at)
                    ==> result == Err::<PushScheduleDecision<A::Permit>, PushAdmissionError>(
                    PushAdmissionError::NonMonotonicObservation,
                ))
                ||| result matches Err(PushAdmissionError::Admission(error)) && A::pressure_answers(
                    *pressure,
                    Err(error),
                ) && final(self).spec_state() == old(self).spec_state()
                    && final(self).spec_exchanges() == old(self).spec_exchanges()
            },
            result is Ok ==> charges_granted::<B>(
                old(self).spec_state(),
                result is Ok && result->Ok_0 is Rejected,
            ),
            result is Ok ==> poll_follows(
                old(self).spec_state(),
                final(self).spec_state(),
                old(self).spec_exchanges(),
                final(self).spec_exchanges(),
                logical_round,
                observed_at,
                result,
            ),
            result matches Err(error) ==> {
                &&& error == PushAdmissionError::Cancelled <==> cancelled
                &&& error == PushAdmissionError::NonMonotonicObservation ==> logical_round == 0
                    || observation_moved_back(old(self).spec_state(), logical_round, observed_at)
                &&& error == PushAdmissionError::NonMonotonicObservation || error
                    == PushAdmissionError::Cancelled ==> final(self).spec_state()
                    == old(self).spec_state()
                &&& {
                    ||| error == PushAdmissionError::Cancelled
                    ||| error == PushAdmissionError::NonMonotonicObservation
                    ||| error == PushAdmissionError::WorkBudget && scan_refused::<B>(
                        old(self).spec_state(),
                    ) && short_of(
                        old(budget).allowance(),
                        4 * old(self).spec_state().queue.slots@.len() as int,
                    ) && scan_stopped(
                        old(self).spec_state(),
                        final(self).spec_state(),
                        logical_round,
                        observed_at,
                    )
                    ||| error is Admission && final(self).spec_state() == old(self).spec_state()
                        && final(self).spec_exchanges() == old(self).spec_exchanges()
                        && A::pressure_answers(*pressure, Err(error->Admission_0))
                    ||| error is Admission && A::pressure_answers(*pressure, Ok(())) && poll_follows(
                        old(self).spec_state(),
                        final(self).spec_state(),
                        old(self).spec_exchanges(),
                        final(self).spec_exchanges(),
                        logical_round,
                        observed_at,
                        result,
                    )
                }
                &&& !(error is Admission) ==> final(self).spec_exchanges()
                    == old(self).spec_exchanges()
            },
            forall|ticket: u64|
                #![trigger final(self).spec_state().queue.dispatching@.contains(ticket)]
                final(self).spec_state().queue.dispatching@.contains(ticket) == old(self).spec_state().queue.dispatching@.contains(ticket),
            match result {
                Ok(PushScheduleDecision::Waiting { queued }) => {
                    &&& queued == old(self).spec_state().queue.slots@.len()
                    &&& final(self).spec_state().queue.slots@
                        == old(self).spec_state().queue.slots@
                    &&& final(self).spec_state().backend == old(self).spec_state().backend
                },
                Ok(PushScheduleDecision::Granted { ticket, request, permit }) => {
                    &&& one_granted(
                        old(self).spec_state().queue.slots@,
                        final(self).spec_state().queue.slots@,
                        ticket.value,
                        request,
                    )
                    &&& Some(final(self).spec_state().backend)
                        == old(self).spec_state().backend.spec_add(request.cost)
                    &&& final(self).spec_state().active == old(self).spec_state().active + 1
                    &&& permit.wf()
                    &&& permit.spec_phase() == PushExecutionPhase::Admitted
                    &&& permit.spec_cost() == request.cost
                    &&& permit.spec_deadline() == request.deadline
                },
                Ok(PushScheduleDecision::Rejected { ticket, .. }) => {
                    &&& one_left(
                        old(self).spec_state().queue.slots@,
                        final(self).spec_state().queue.slots@,
                        ticket.value,
                    )
                    &&& final(self).spec_state().backend == old(self).spec_state().backend
                },
                Err(_) => {
                    &&& final(self).spec_state().queue.slots@
                        == old(self).spec_state().queue.slots@
                    &&& final(self).spec_state().backend == old(self).spec_state().backend
                },
            },
    {
        if cancelled {
            return Err(PushAdmissionError::Cancelled);
        }
        if logical_round == 0 {
            return Err(PushAdmissionError::NonMonotonicObservation);
        }
        match self.admission.validate_pressure(pressure) {
            Ok(accepted) => {
                assert(accepted == ());
            },
            Err(error) => {
                return Err(PushAdmissionError::Admission(error));
            },
        }
        let ghost before = self.state;
        let ghost told = self.admission.exchanges();
        let selection = self.state.select(logical_round, observed_at, budget)?;
        let ghost chosen = self.state;
        let ghost scanned = selection;
        let (offer, request) = match selection {
            PushSelection::Waiting { queued } => {
                let result = Ok(PushScheduleDecision::Waiting { queued });
                assert(round_follows(
                    before,
                    chosen,
                    self.state,
                    logical_round,
                    observed_at,
                    scanned,
                    result,
                ));
                return result;
            },
            PushSelection::Expired { ticket } => {
                proof {
                    let at = choose|at: int| #[trigger]
                        expires(before, chosen, observed_at, ticket, at);
                    assert(left_at(before.queue.slots@, chosen.queue.slots@, ticket.value, at));
                }
                let result = Ok(
                    PushScheduleDecision::Rejected { ticket, rejection: deadline_rejection() },
                );
                assert(round_follows(
                    before,
                    chosen,
                    self.state,
                    logical_round,
                    observed_at,
                    scanned,
                    result,
                ));
                return result;
            },
            PushSelection::Offer { offer, request } => {
                proof {
                    lemma_offer_is_out(
                        before,
                        chosen,
                        logical_round,
                        observed_at,
                        offer,
                        request,
                    );
                }
                (offer, request)
            },
        };
        let ticket: PushAdmissionTicket = offer.ticket;
        let ghost offered = request;
        let admission_ticket = match self.admission.submit(request) {
            Ok(admission_ticket) => admission_ticket,
            Err(error) => {
                let _ = self.state.finish_dispatch(&offer, false, true);
                proof {
                    lemma_finish(before, chosen, self.state, offer, false);
                }
                let result = Err(PushAdmissionError::Admission(error));
                assert(asked(told, self.admission.exchanges(), offered, observed_at, Err(error)));
                assert(round_follows(
                    before,
                    chosen,
                    self.state,
                    logical_round,
                    observed_at,
                    scanned,
                    result,
                ));
                return result;
            },
        };
        let ghost mut outcome: AdmissionOutcome = AdmissionOutcome::Queued;
        let result = match self.admission.poll(admission_ticket, observed_at, pressure) {
            AdmissionDecision::Granted(admission_permit) => {
                proof {
                    outcome = AdmissionOutcome::Granted;
                }
                let grant = self.state.finish_granted(&offer);
                proof {
                    lemma_grant(before, chosen, self.state, offer, grant);
                }
                match grant {
                    PushGrant::Accepted { request, observed_at: granted_at } => {
                        let permit = PushExecutionPermit::new(
                            admission_permit,
                            request.cost,
                            request.deadline,
                            granted_at,
                        );
                        Ok(PushScheduleDecision::Granted { ticket, request, permit })
                    },
                    PushGrant::Waiting => Ok(
                        PushScheduleDecision::Waiting { queued: self.state.queue.slots.len() },
                    ),
                    PushGrant::Deadline => Ok(
                        PushScheduleDecision::Rejected { ticket, rejection: deadline_rejection() },
                    ),
                    PushGrant::Cancelled => Err(PushAdmissionError::Cancelled),
                }
            },
            AdmissionDecision::Queued => {
                let withdrawn: bool = self.admission.cancel(admission_ticket);
                let finished: bool = self.state.finish_dispatch(&offer, false, true);
                if !withdrawn {
                    let _ = self.admission.cancel(admission_ticket);
                }
                proof {
                    lemma_finish(before, chosen, self.state, offer, false);
                }
                if !finished {
                    return Err(PushAdmissionError::Cancelled);
                }
                Ok(PushScheduleDecision::Waiting { queued: self.state.queue.slots.len() })
            },
            AdmissionDecision::Rejected { reason, retry } => {
                proof {
                    outcome = AdmissionOutcome::Rejected { reason, retry };
                }
                let finished: bool = self.state.finish_dispatch(&offer, true, true);
                proof {
                    lemma_finish(before, chosen, self.state, offer, true);
                }
                if !finished {
                    return Err(PushAdmissionError::Cancelled);
                }
                Ok(PushScheduleDecision::Rejected { ticket, rejection: map_rejection(reason, retry) })
            },
        };
        proof {
            let tells = self.admission.exchanges();
            assert(settled(told, tells, offered, observed_at, admission_ticket, outcome));
            assert(asked(told, tells, offered, observed_at, Ok(outcome)));
        }
        assert(round_follows(
            before,
            chosen,
            self.state,
            logical_round,
            observed_at,
            scanned,
            result,
        ));
        result
    }
}

/// A push that was offered and neither served nor removed pays nothing.
pub proof fn law_unserved_offer_costs_nothing(
    before: PushQueueState,
    ready: FairQueue<PushAdmissionRequest>,
    offered: PushQueueState,
    after: PushQueueState,
    observed_at: Timestamp,
    offer: PushOffer,
    request: AdmissionRequest,
    offset: int,
    at: int,
)
    requires
        forall|kind: int|
            0 <= kind < 3 ==> credit_bounded(
                #[trigger] ready.scope(kind),
                offered.limits.max_deficit,
            ),
        offers(before, ready, offered, observed_at, offer, request, offset),
        queue_after_offer(offered, after.queue, offer, at, false, true),
    ensures
        after.queue.slots@ == ready.slots@,
        forall|kind: int|
            0 <= kind < 3 ==> #[trigger] after.queue.scope(kind) == ready.scope(kind),
{
    let slot = ready.slots@[rotated(ready.cursor, offset, ready.slots@.len())];
    assert forall|kind: int| 0 <= kind < 3 implies #[trigger] after.queue.scope(kind)
        == ready.scope(kind) by {
        assert(credit_bounded(ready.scope(kind), offered.limits.max_deficit));
        assert(offered.queue.scope(kind) == debited(
            ready.scope(kind),
            scope_key(slot.request.identity, kind),
            offer.cost,
        ));
        crate::fair_queue::law_refund_undoes_debit(
            ready.scope(kind),
            scope_key(slot.request.identity, kind),
            offer.cost,
            offered.limits.max_deficit,
        );
    }
}

/// Once enough small pushes in a row were granted, the next offer goes to a large push if one is
/// eligible.
pub proof fn law_small_bypass_is_bounded(
    before: PushQueueState,
    ready: FairQueue<PushAdmissionRequest>,
    after: PushQueueState,
    observed_at: Timestamp,
    offer: PushOffer,
    request: AdmissionRequest,
    offset: int,
)
    requires
        before.consecutive_small >= before.limits.max_small_bypass,
        large_waits(ready, before.backend, observed_at, before.limits),
        offers(before, ready, after, observed_at, offer, request, offset),
    ensures
        !small(
            ready.slots@[rotated(ready.cursor, offset, ready.slots@.len())].request,
            before.limits,
        ),
{
}

/// One poll of a queue: it ended in order, it stopped before its scan, or its scan ran out of
/// budget.
pub open spec fn polled<P>(
    before: PushQueueState,
    after: PushQueueState,
    logical_round: u64,
    observed_at: Timestamp,
    result: Result<PushScheduleDecision<P>, PushAdmissionError>,
) -> bool {
    ||| exists|told: Seq<AdmissionExchange>, tells: Seq<AdmissionExchange>| #[trigger]
        poll_follows(before, after, told, tells, logical_round, observed_at, result)
    ||| result is Err && after == before
    ||| result is Err && scan_stopped(before, after, logical_round, observed_at)
}

/// With the credit of this round some large push can be served.
pub open spec fn large_ready(
    state: PushQueueState,
    logical_round: u64,
    observed_at: Timestamp,
) -> bool {
    forall|ready: FairQueue<PushAdmissionRequest>| #[trigger]
        credit_given(state, ready, logical_round) ==> large_waits(
            ready,
            state.backend,
            observed_at,
            state.limits,
        )
}

/// How many polls granted a request.
pub open spec fn grant_count<P>(
    results: Seq<Result<PushScheduleDecision<P>, PushAdmissionError>>,
) -> nat
    decreases results.len(),
{
    if results.len() == 0 {
        0
    } else {
        grant_count(results.drop_last()) + if results.last() matches Ok(
            PushScheduleDecision::Granted { .. },
        ) {
            1nat
        } else {
            0
        }
    }
}

/// One poll while a large push can be served: a small grant adds to the run, and starts below the
/// bound; whatever else comes of it, unless a large push is granted, keeps the run.
proof fn lemma_poll_counts<P>(
    before: PushQueueState,
    after: PushQueueState,
    logical_round: u64,
    observed_at: Timestamp,
    result: Result<PushScheduleDecision<P>, PushAdmissionError>,
)
    requires
        before.wf(),
        polled(before, after, logical_round, observed_at, result),
        large_ready(before, logical_round, observed_at),
        result matches Ok(PushScheduleDecision::Granted { request, .. }) ==> small(
            request,
            before.limits,
        ),
    ensures
        after.limits == before.limits,
        if result matches Ok(PushScheduleDecision::Granted { .. }) {
            before.consecutive_small < before.limits.max_small_bypass && after.consecutive_small
                == before.consecutive_small + 1
        } else {
            after.consecutive_small == before.consecutive_small
        },
{
    if exists|told: Seq<AdmissionExchange>, tells: Seq<AdmissionExchange>| #[trigger]
        poll_follows(before, after, told, tells, logical_round, observed_at, result) {
        let (told, tells) = choose|told: Seq<AdmissionExchange>, tells: Seq<AdmissionExchange>|
         #[trigger]
            poll_follows(before, after, told, tells, logical_round, observed_at, result);
        let (chosen, selection) = choose|chosen: PushQueueState, selection: PushSelection|
         #[trigger]
            round_follows(before, chosen, after, logical_round, observed_at, selection, result)
                && controller_heeded(told, tells, observed_at, selection, result);
        match selection {
            PushSelection::Waiting { .. } => {},
            PushSelection::Expired { .. } => {},
            PushSelection::Offer { offer, request } => {
                lemma_offer_counts(
                    before,
                    chosen,
                    after,
                    logical_round,
                    observed_at,
                    offer,
                    request,
                    result,
                );
            },
        }
    }
}

/// A round that made an offer counts as its end says.
proof fn lemma_offer_counts<P>(
    before: PushQueueState,
    chosen: PushQueueState,
    after: PushQueueState,
    logical_round: u64,
    observed_at: Timestamp,
    offer: PushOffer,
    request: AdmissionRequest,
    result: Result<PushScheduleDecision<P>, PushAdmissionError>,
)
    requires
        before.wf(),
        round_follows(
            before,
            chosen,
            after,
            logical_round,
            observed_at,
            PushSelection::Offer { offer, request },
            result,
        ),
        large_ready(before, logical_round, observed_at),
        result matches Ok(PushScheduleDecision::Granted { request, .. }) ==> small(
            request,
            before.limits,
        ),
    ensures
        if result matches Ok(PushScheduleDecision::Granted { .. }) {
            before.consecutive_small < before.limits.max_small_bypass && after.consecutive_small
                == before.consecutive_small + 1
        } else {
            after.consecutive_small == before.consecutive_small
        },
{
    let (ready, offset) = choose|ready: FairQueue<PushAdmissionRequest>, offset: int|
        credit_given(before, ready, logical_round) && #[trigger] offers(
            before,
            ready,
            chosen,
            observed_at,
            offer,
            request,
            offset,
        );
    assert(large_waits(ready, before.backend, observed_at, before.limits));
    let at = rotated(ready.cursor, offset, ready.slots@.len());
    lemma_rotated(ready.cursor, offset, ready.slots@.len());
    lemma_offer_is_out(before, chosen, logical_round, observed_at, offer, request);
    match result {
        Ok(PushScheduleDecision::Granted { request: served, .. }) => {
            let grant = PushGrant::Accepted {
                request: served,
                observed_at: grant_time(chosen.last_observed_at, served),
            };
            let place = choose|place: int| #[trigger]
                grant_finished(chosen, after, offer, grant, place);
            assert(grant_finished(chosen, after, offer, grant, place));
            assert(before.queue.slots@[at].ticket == before.queue.slots@[place].ticket);
            assert(at == place);
        },
        Ok(PushScheduleDecision::Rejected { .. }) => {
            if finish_follows(chosen, after, offer, true, true, true) {
                let place = choose|place: int| #[trigger]
                    offer_finished(chosen, after, offer, true, true, place);
                assert(offer_finished(chosen, after, offer, true, true, place));
            } else {
                let place = choose|place: int| #[trigger]
                    grant_finished(chosen, after, offer, PushGrant::Deadline, place);
                assert(grant_finished(chosen, after, offer, PushGrant::Deadline, place));
            }
        },
        Ok(PushScheduleDecision::Waiting { .. }) => {
            if finish_follows(chosen, after, offer, false, true, true) {
                let place = choose|place: int| #[trigger]
                    offer_finished(chosen, after, offer, false, true, place);
                assert(offer_finished(chosen, after, offer, false, true, place));
            } else {
                let place = choose|place: int| #[trigger]
                    grant_finished(chosen, after, offer, PushGrant::Waiting, place);
                assert(grant_finished(chosen, after, offer, PushGrant::Waiting, place));
            }
        },
        Err(_) => {
            let place = choose|place: int| #[trigger]
                offer_finished(chosen, after, offer, false, true, place);
            assert(offer_finished(chosen, after, offer, false, true, place));
        },
    }
}

/// Over any sequence of polls, whatever comes of each, during which some large push can be served
/// and none is granted, at most as many small pushes are granted as the limits allow.
pub proof fn law_small_grants_are_bounded<P>(
    states: Seq<PushQueueState>,
    rounds: Seq<u64>,
    times: Seq<Timestamp>,
    results: Seq<Result<PushScheduleDecision<P>, PushAdmissionError>>,
)
    requires
        states.len() == results.len() + 1,
        rounds.len() == results.len(),
        times.len() == results.len(),
        forall|k: int|
            0 <= k < results.len() ==> {
                &&& states[k].wf()
                &&& polled(states[k], states[k + 1], rounds[k], times[k], #[trigger] results[k])
                &&& large_ready(states[k], rounds[k], times[k])
                &&& results[k] matches Ok(PushScheduleDecision::Granted { request, .. }) ==> small(
                    request,
                    states[k].limits,
                )
            },
    ensures
        grant_count(results) <= states[0].limits.max_small_bypass,
        states.last().limits == states[0].limits,
        states.last().consecutive_small >= grant_count(results),
    decreases results.len(),
{
    if results.len() > 0 {
        let last = results.len() - 1;
        let front = results.drop_last();
        assert forall|k: int| 0 <= k < front.len() implies {
            &&& states.drop_last()[k].wf()
            &&& polled(
                states.drop_last()[k],
                states.drop_last()[k + 1],
                rounds.drop_last()[k],
                times.drop_last()[k],
                #[trigger] front[k],
            )
            &&& large_ready(
                states.drop_last()[k],
                rounds.drop_last()[k],
                times.drop_last()[k],
            )
            &&& front[k] matches Ok(PushScheduleDecision::Granted { request, .. }) ==> small(
                request,
                states.drop_last()[k].limits,
            )
        } by {
            assert(front[k] == results[k]);
        }
        law_small_grants_are_bounded(
            states.drop_last(),
            rounds.drop_last(),
            times.drop_last(),
            front,
        );
        assert(results[last] == results.last());
        lemma_poll_counts(
            states[last],
            states[last + 1],
            rounds[last],
            times[last],
            results[last],
        );
    }
}

} // verus!
