//! Fair bounded clone scheduling layered over weighted backend admission.
//!
//! The queue state changes in short steps that need no controller: enqueue, cancel, select, and the
//! finishing of an offer. A poll selects one request, offers it to the controller, and finishes the
//! offer by what the controller decided.

use crate::admission::{
    actor_fits, aged_cost, aged_units, asked, check_actor, is_overdue, moved_back, overdue,
    repository_scope, settled, tenant_scope, text_bytes, time_moved_back, waited_nanos,
    AdmissionConfigError, AdmissionController, AdmissionDecision, AdmissionExchange,
    AdmissionIdentity, AdmissionOutcome, AdmissionRejectReason, AdmissionRequest, ResourceClass,
    ResourceWeights,
};
use crate::budget::{short_of, spends, spent_within};
use crate::clock::{Duration, Timestamp};
use crate::clone_metrics::{
    CloneLimitError, CloneLimits, CloneMetricsRecorder, CloneMetricsReport, CloneOutcome,
};
use crate::fair_queue::{
    charged, covers, credit_after, credit_bounded, credited, debited, discharged,
    lemma_credit_keeps_bounds, lemma_discharge_keeps_bounds, lemma_rotated, offer_ended,
    quota_kept, refunded, rotated, scope_matches, slot_charges, usage_of, FairQueue, QueueSlot, ScopeKey, ScopeMap, ScopeQuota, ScopeUsage,
};
use crate::pack_stream::{PackAbortReason, PackChunkSink, PackSinkState};
use vstd::prelude::*;

verus! {

/// Stable scheduler-local clone ticket.
#[derive(Clone, Copy, Debug, PartialEq, Eq, Structural)]
pub struct CloneAdmissionTicket {
    /// Sequence value.
    pub value: u64,
}

impl CloneAdmissionTicket {
    /// Return the sequence value.
    pub fn get(self) -> (value: u64)
        ensures
            value == self.value,
    {
        self.value
    }
}

/// Weighted clone cost.
#[derive(Clone, Copy, Debug, PartialEq, Eq, Structural)]
pub struct CloneAdmissionCost {
    /// Peak decoded, delta and output memory.
    pub memory_bytes: u64,
    /// Expected backend and response bytes.
    pub io_bytes: u64,
    /// Relative processor units.
    pub cpu_units: u64,
    /// Expected query units.
    pub sql_units: u64,
    /// Expected object-store units.
    pub s3_units: u64,
    /// Service units; small jobs should use smaller values.
    pub fair_service_units: u64,
}

impl CloneAdmissionCost {
    /// The capacity that the request takes.
    pub open spec fn spec_weights(self) -> ResourceWeights {
        ResourceWeights {
            slots: 1,
            memory_bytes: self.memory_bytes,
            io_bytes: self.io_bytes,
            cpu_units: self.cpu_units,
            sql_units: self.sql_units,
            s3_units: self.s3_units,
        }
    }

    /// Return the capacity that the request takes.
    pub fn weights(self) -> (weights: ResourceWeights)
        ensures
            weights == self.spec_weights(),
    {
        ResourceWeights {
            slots: 1,
            memory_bytes: self.memory_bytes,
            io_bytes: self.io_bytes,
            cpu_units: self.cpu_units,
            sql_units: self.sql_units,
            s3_units: self.s3_units,
        }
    }

    /// No required dimension is zero.
    pub open spec fn valid(self) -> bool {
        self.memory_bytes > 0 && self.io_bytes > 0 && self.cpu_units > 0 && self.fair_service_units
            > 0
    }

    /// Reject a cost with a zero in a required dimension.
    pub fn validate(self) -> (result: Result<Self, CloneAdmissionError>)
        ensures
            result == if self.valid() {
                Ok::<Self, CloneAdmissionError>(self)
            } else {
                Err(CloneAdmissionError::InvalidCost)
            },
    {
        if self.memory_bytes == 0 || self.io_bytes == 0 || self.cpu_units == 0
            || self.fair_service_units == 0 {
            return Err(CloneAdmissionError::InvalidCost);
        }
        Ok(self)
    }
}

/// Clone scheduling failure.
#[derive(Clone, Copy, Debug, PartialEq, Eq, Structural)]
pub enum CloneAdmissionError {
    /// Clone limits rejected the request.
    CloneLimits(CloneLimitError),
    /// Request shape, output or timing is invalid.
    InvalidRequest,
    /// The cost is zero in a required dimension or can never be served.
    InvalidCost,
    /// Queue limits are zero or inconsistent.
    InvalidQueueLimits,
    /// A queue bound is reached.
    QueueFull,
    /// Memory for the scheduler is short.
    Allocation,
    /// Tickets are exhausted.
    TicketOverflow,
    /// The controller refused a submission.
    Admission(AdmissionConfigError),
    /// The scan budget is exhausted.
    WorkBudget,
    /// Cancellation was observed.
    Cancelled,
    /// Observed time moved backwards.
    NonMonotonicTime,
}

/// Clone admission request, made before any output.
#[derive(Debug)]
pub struct CloneAdmissionRequest {
    /// Who asks.
    pub identity: AdmissionIdentity,
    /// Want count.
    pub wants: usize,
    /// Have count.
    pub haves: usize,
    /// Planned selected objects.
    pub selected_objects: usize,
    /// Planned maximum response bytes.
    pub output_bytes: u64,
    /// Bytes retained while waiting.
    pub queued_bytes: u64,
    /// Weighted cost.
    pub cost: CloneAdmissionCost,
    /// Submission time.
    pub submitted_at: Timestamp,
    /// Deadline.
    pub deadline: Timestamp,
    /// Estimated service time.
    pub service_estimate: Duration,
    /// Clone limits.
    pub clone_limits: CloneLimits,
}

/// Bytes that the record of a waiting request takes at least.
pub open spec fn record_bytes(identity: AdmissionIdentity) -> nat {
    vstd::layout::size_of::<QueueSlot<CloneAdmissionRequest>>() + vstd::utf8::encode_utf8(
        identity.actor@,
    ).len() + 2 * vstd::utf8::encode_utf8(identity.tenant@).len() + 2 * vstd::utf8::encode_utf8(
        identity.repository@,
    ).len()
}

/// What the clone limits reject of a request shape.
pub open spec fn shape_fault(limits: CloneLimits, wants: usize, haves: usize) -> Option<
    CloneLimitError,
> {
    if limits.some_zero() {
        Some(CloneLimitError::Zero)
    } else if limits.some_above(CloneLimits::spec_hard_max()) {
        Some(CloneLimitError::ExceedsHardMaximum)
    } else if wants > limits.max_wants || haves > limits.max_haves {
        Some(CloneLimitError::RequestShape)
    } else {
        None
    }
}

impl CloneAdmissionRequest {
    /// Output, record and timing lie within the clone limits.
    pub open spec fn shape_valid(self) -> bool {
        let limits = self.clone_limits;
        &&& self.selected_objects <= limits.max_selected_objects
        &&& 0 < self.output_bytes <= limits.max_output_bytes
        &&& self.queued_bytes >= record_bytes(self.identity)
        &&& actor_fits(self.identity.actor@)
        &&& 0 < self.service_estimate.nanos <= limits.max_duration.nanos
        &&& self.submitted_at.unix_nanos < self.deadline.unix_nanos
        &&& self.deadline.unix_nanos - self.submitted_at.unix_nanos <= limits.max_duration.nanos
        &&& self.submitted_at.unix_nanos + self.service_estimate.nanos <= self.deadline.unix_nanos
    }

    /// Why the request is refused, if it is.
    pub open spec fn fault(self) -> Option<CloneAdmissionError> {
        match shape_fault(self.clone_limits, self.wants, self.haves) {
            Some(error) => Some(CloneAdmissionError::CloneLimits(error)),
            None => if !self.cost.valid() {
                Some(CloneAdmissionError::InvalidCost)
            } else if !self.shape_valid() {
                Some(CloneAdmissionError::InvalidRequest)
            } else {
                None
            },
        }
    }

    /// Submission time and deadline are representable.
    pub open spec fn times_in_range(self) -> bool {
        self.submitted_at.in_range() && self.deadline.in_range()
    }

    /// Validate a request.
    pub fn validate(&self) -> (result: Result<(), CloneAdmissionError>)
        requires
            self.times_in_range(),
        ensures
            result == match self.fault() {
                Some(error) => Err::<(), CloneAdmissionError>(error),
                None => Ok(()),
            },
    {
        let limits = self.clone_limits;
        match limits.validate_request_shape(self.wants, self.haves) {
            Ok(()) => {},
            Err(error) => {
                return Err(CloneAdmissionError::CloneLimits(error));
            },
        }
        match self.cost.validate() {
            Ok(_) => {},
            Err(error) => {
                return Err(error);
            },
        }
        let record: usize = std::mem::size_of::<QueueSlot<CloneAdmissionRequest>>();
        let minimum: u128 = record as u128 + text_bytes(&self.identity.actor) as u128 + 2 * (
        text_bytes(&self.identity.tenant.value) as u128) + 2 * (text_bytes(
            &self.identity.repository.value,
        ) as u128);
        if self.selected_objects > limits.max_selected_objects || self.output_bytes == 0
            || self.output_bytes > limits.max_output_bytes || (self.queued_bytes as u128) < minimum
            || !check_actor(&self.identity.actor) || self.service_estimate.nanos == 0
            || self.service_estimate.nanos > limits.max_duration.nanos
            || self.deadline.unix_nanos <= self.submitted_at.unix_nanos {
            return Err(CloneAdmissionError::InvalidRequest);
        }
        let span: u128 = (self.deadline.unix_nanos - self.submitted_at.unix_nanos) as u128;
        if span > limits.max_duration.nanos {
            return Err(CloneAdmissionError::InvalidRequest);
        }
        match self.submitted_at.checked_add(self.service_estimate) {
            Some(completion) => {
                if completion.unix_nanos > self.deadline.unix_nanos {
                    return Err(CloneAdmissionError::InvalidRequest);
                }
                Ok(())
            },
            None => Err(CloneAdmissionError::InvalidRequest),
        }
    }

    /// The submission says what the request says.
    pub open spec fn submits(self, submitted: AdmissionRequest) -> bool {
        &&& submitted.class == ResourceClass::Clone
        &&& submitted.identity.same_as(self.identity)
        &&& submitted.weights == self.cost.spec_weights()
        &&& submitted.submitted_at == self.submitted_at
        &&& submitted.deadline == self.deadline
        &&& submitted.service_estimate == self.service_estimate
    }

    /// Make the submission to the controller.
    pub fn admission_request(&self) -> (submitted: AdmissionRequest)
        ensures
            self.submits(submitted),
    {
        AdmissionRequest {
            class: ResourceClass::Clone,
            identity: self.identity.clone(),
            weights: self.cost.weights(),
            submitted_at: self.submitted_at,
            deadline: self.deadline,
            service_estimate: self.service_estimate,
        }
    }
}

/// Clone queue limits and aging policy.
#[derive(Clone, Copy, Debug, PartialEq, Eq, Structural)]
pub struct CloneQueueLimits {
    /// Maximum queued requests.
    pub max_queued: usize,
    /// Maximum retained bytes.
    pub max_queued_bytes: u64,
    /// Maximum queued requests of one tenant.
    pub max_tenant_queued: usize,
    /// Maximum retained bytes of one tenant.
    pub max_tenant_queued_bytes: u64,
    /// Maximum queued requests of one repository.
    pub max_repository_queued: usize,
    /// Maximum retained bytes of one repository.
    pub max_repository_queued_bytes: u64,
    /// Credit that one round gives each queued tenant and repository.
    pub fair_quantum: u64,
    /// Maximum credit.
    pub max_deficit: u64,
    /// Observed wait that earns one aging credit.
    pub aging_interval: Duration,
    /// Service units taken off per aging interval.
    pub aging_credit_units: u64,
}

impl CloneQueueLimits {
    /// The limits are positive and nested.
    pub open spec fn valid(self) -> bool {
        &&& 0 < self.max_repository_queued <= self.max_tenant_queued <= self.max_queued
        &&& 0 < self.max_repository_queued_bytes <= self.max_tenant_queued_bytes
            <= self.max_queued_bytes
        &&& 0 < self.fair_quantum <= self.max_deficit
        &&& self.aging_interval.nanos > 0
    }

    /// Validate queue, credit and aging bounds.
    pub fn validate(self) -> (result: Result<Self, CloneAdmissionError>)
        ensures
            result == if self.valid() {
                Ok::<Self, CloneAdmissionError>(self)
            } else {
                Err(CloneAdmissionError::InvalidQueueLimits)
            },
    {
        if self.max_queued == 0 || self.max_queued_bytes == 0 || self.max_tenant_queued == 0
            || self.max_tenant_queued > self.max_queued || self.max_tenant_queued_bytes == 0
            || self.max_tenant_queued_bytes > self.max_queued_bytes || self.max_repository_queued
            == 0 || self.max_repository_queued > self.max_tenant_queued
            || self.max_repository_queued_bytes == 0 || self.max_repository_queued_bytes
            > self.max_tenant_queued_bytes || self.fair_quantum == 0 || self.max_deficit
            < self.fair_quantum || self.aging_interval.nanos == 0 {
            return Err(CloneAdmissionError::InvalidQueueLimits);
        }
        Ok(self)
    }

    /// The quota of every tenant.
    pub open spec fn tenant_quota(self) -> ScopeQuota {
        ScopeQuota { max_count: self.max_tenant_queued, max_bytes: self.max_tenant_queued_bytes }
    }

    /// The quota of every repository.
    pub open spec fn repository_quota(self) -> ScopeQuota {
        ScopeQuota {
            max_count: self.max_repository_queued,
            max_bytes: self.max_repository_queued_bytes,
        }
    }
}

/// Scan budget.
pub trait CloneQueueWorkBudget {
    /// A charge may be answered so.
    closed spec fn answers(units: u64, charged: bool) -> bool {
        true
    }

    /// Units left, where the budget counts them.
    closed spec fn allowance(&self) -> Option<nat> {
        None
    }

    /// Charge scan units; `false` means that the budget is exhausted.
    fn charge(&mut self, units: u64) -> (charged: bool)
        ensures
            Self::answers(units, charged),
            spends(old(self).allowance(), final(self).allowance(), units, charged),
    ;
}

/// The budget refuses a charge that a scan of this queue makes: one unit for a request looked at or,
/// where credit is due, one for each request waiting.
pub open spec fn scan_refused<B: CloneQueueWorkBudget>(
    state: CloneQueueState,
    observed_at: Timestamp,
) -> bool {
    &&& state.queue.slots@.len() > 0
    &&& {
        ||| B::answers(1, false)
        ||| state.last_credit_at != Some(observed_at) && B::answers(
            state.queue.slots@.len() as u64,
            false,
        )
    }
}

/// What a scan that ran out of budget leaves: the time is remembered and the same requests wait;
/// credit was given or not, and nothing was offered.
pub open spec fn scan_stopped(
    before: CloneQueueState,
    after: CloneQueueState,
    observed_at: Timestamp,
) -> bool {
    &&& after.limits == before.limits
    &&& after.last_observed_at == Some(observed_at)
    &&& {
        ||| after.queue == before.queue && after.last_credit_at == before.last_credit_at
        ||| credit_given(before, after.queue, observed_at) && after.last_credit_at == Some(
            observed_at,
        )
    }
}

/// Counter-based scan budget.
#[derive(Clone, Copy, Debug, PartialEq, Eq, Structural)]
pub struct CloneQueueWorkLimit {
    remaining: u64,
}

impl CloneQueueWorkLimit {
    /// Units left.
    pub closed spec fn left(self) -> u64 {
        self.remaining
    }

    /// Create an exact allowance.
    pub fn new(units: u64) -> (limit: Self)
        ensures
            limit.left() == units,
    {
        CloneQueueWorkLimit { remaining: units }
    }

    /// Return the units left.
    pub fn remaining(&self) -> (units: u64)
        ensures
            units == self.left(),
    {
        self.remaining
    }
}

impl CloneQueueWorkBudget for CloneQueueWorkLimit {
    open spec fn answers(units: u64, charged: bool) -> bool {
        charged || units > 0
    }

    open spec fn allowance(&self) -> Option<nat> {
        Some(self.left() as nat)
    }

    fn charge(&mut self, units: u64) -> (charged: bool)
        ensures
            charged == (units <= old(self).left()),
            final(self).left() == if charged {
                (old(self).left() - units) as u64
            } else {
                old(self).left()
            },
    {
        if units > self.remaining {
            return false;
        }
        self.remaining = self.remaining - units;
        true
    }
}

/// Clone queue between two steps.
#[derive(Debug)]
pub struct CloneQueueState {
    /// Limits.
    pub limits: CloneQueueLimits,
    /// Waiting requests, counted by tenant and by repository.
    pub queue: FairQueue<CloneAdmissionRequest>,
    /// Latest observation.
    pub last_observed_at: Option<Timestamp>,
    /// Observation that gave credit last.
    pub last_credit_at: Option<Timestamp>,
}

/// A slot holds a valid request under its own scopes.
pub open spec fn slot_sound(slot: QueueSlot<CloneAdmissionRequest>, limits: CloneQueueLimits) -> bool {
    &&& slot.keys@.len() == 2
    &&& slot.keys@[0]@ == tenant_scope(slot.request.identity)
    &&& slot.keys@[1]@ == repository_scope(slot.request.identity)
    &&& slot.bytes == slot.request.queued_bytes
    &&& slot.request.fault() is None
    &&& slot.request.times_in_range()
    &&& slot.request.cost.fair_service_units <= limits.max_deficit
}

/// The service units that a waiting request costs now.
pub open spec fn cost_now(
    request: CloneAdmissionRequest,
    observed_at: Timestamp,
    limits: CloneQueueLimits,
) -> u64 {
    aged_units(
        request.cost.fair_service_units,
        waited_nanos(request.submitted_at, observed_at),
        limits.aging_interval.nanos,
        limits.aging_credit_units,
    )
}

/// The service units that a waiting request costs now.
fn effective_cost(
    request: &CloneAdmissionRequest,
    observed_at: Timestamp,
    limits: CloneQueueLimits,
) -> (cost: u64)
    requires
        request.times_in_range(),
        request.fault() is None,
        observed_at.in_range(),
        limits.valid(),
    ensures
        cost == cost_now(*request, observed_at, limits),
        1 <= cost <= request.cost.fair_service_units,
{
    aged_cost(
        request.cost.fair_service_units,
        request.submitted_at,
        observed_at,
        limits.aging_interval,
        limits.aging_credit_units,
    )
}

/// The work of one selection was granted: a unit for each request looked at and, where credit was
/// given, one for each request waiting.
pub open spec fn charges_granted<B: CloneQueueWorkBudget>(
    state: CloneQueueState,
    observed_at: Timestamp,
    rejected: bool,
) -> bool {
    &&& state.queue.slots@.len() > 0 ==> B::answers(1, true)
    &&& state.queue.slots@.len() > 0 && !rejected && state.last_credit_at != Some(observed_at)
        ==> B::answers(state.queue.slots@.len() as u64, true)
}

impl CloneQueueState {
    /// Every bound is kept and every record is what waits.
    pub open spec fn wf(self) -> bool {
        &&& self.limits.valid()
        &&& self.queue.wf()
        &&& self.queue.scopes@.len() == 2
        &&& self.queue.slots@.len() <= self.limits.max_queued
        &&& self.queue.queued_bytes <= self.limits.max_queued_bytes
        &&& quota_kept(self.queue.scope(0), self.limits.tenant_quota())
        &&& quota_kept(self.queue.scope(1), self.limits.repository_quota())
        &&& credit_bounded(self.queue.scope(0), self.limits.max_deficit)
        &&& credit_bounded(self.queue.scope(1), self.limits.max_deficit)
        &&& forall|i: int|
            0 <= i < self.queue.slots@.len() ==> slot_sound(
                #[trigger] self.queue.slots@[i],
                self.limits,
            )
    }

    /// Another request would exceed a bound.
    pub open spec fn full_for(self, request: CloneAdmissionRequest) -> bool {
        ||| self.queue.queued_bytes + request.queued_bytes > self.limits.max_queued_bytes
        ||| self.queue.slots@.len() >= self.limits.max_queued
        ||| !usage_of(self.queue.scope(0), tenant_scope(request.identity)).spec_fits(
            request.queued_bytes,
            self.limits.tenant_quota(),
        )
        ||| !usage_of(self.queue.scope(1), repository_scope(request.identity)).spec_fits(
            request.queued_bytes,
            self.limits.repository_quota(),
        )
    }

    /// Why a request is not queued, if it is not.
    pub open spec fn enqueue_fault(self, request: CloneAdmissionRequest) -> Option<
        CloneAdmissionError,
    > {
        match request.fault() {
            Some(error) => Some(error),
            None => if request.cost.fair_service_units > self.limits.max_deficit {
                Some(CloneAdmissionError::InvalidCost)
            } else if self.full_for(request) {
                Some(CloneAdmissionError::QueueFull)
            } else if self.queue.next_ticket == u64::MAX {
                Some(CloneAdmissionError::TicketOverflow)
            } else {
                None
            },
        }
    }

    /// Create an empty queue.
    pub fn new(limits: CloneQueueLimits) -> (result: Result<Self, CloneAdmissionError>)
        ensures
            limits.valid() <==> result is Ok,
            !limits.valid() ==> result->Err_0 == CloneAdmissionError::InvalidQueueLimits,
            result is Ok ==> {
                let state = result->Ok_0;
                &&& state.wf()
                &&& state.limits == limits
                &&& state.queue.slots@.len() == 0
                &&& state.queue.next_ticket == 1
                &&& state.last_observed_at is None
                &&& state.last_credit_at is None
            },
    {
        if let Err(error) = limits.validate() {
            return Err(error);
        }
        let queue: FairQueue<CloneAdmissionRequest> = FairQueue::new(2);
        proof {
            assert(queue.scope(0) == ScopeMap::empty());
            assert(queue.scope(1) == ScopeMap::empty());
        }
        Ok(CloneQueueState { limits, queue, last_observed_at: None, last_credit_at: None })
    }

    /// Validate and queue one clone.
    pub fn enqueue(&mut self, request: CloneAdmissionRequest) -> (result: Result<
        CloneAdmissionTicket,
        CloneAdmissionError,
    >)
        requires
            old(self).wf(),
            request.times_in_range(),
        ensures
            final(self).wf(),
            match old(self).enqueue_fault(request) {
                Some(error) => result == Err::<CloneAdmissionTicket, CloneAdmissionError>(error)
                    && *final(self) == *old(self),
                None => {
                    &&& result is Ok
                    &&& result->Ok_0.value == old(self).queue.next_ticket
                    &&& final(self).queue.next_ticket == old(self).queue.next_ticket + 1
                    &&& final(self).queue.slots@.drop_last() == old(self).queue.slots@
                    &&& final(self).queue.slots@.len() == old(self).queue.slots@.len() + 1
                    &&& final(self).queue.slots@.last().request == request
                    &&& final(self).queue.slots@.last().ticket == result->Ok_0.value
                    &&& final(self).queue.scope(0) == charged(
                        old(self).queue.scope(0),
                        tenant_scope(request.identity),
                        request.queued_bytes,
                    )
                    &&& final(self).queue.scope(1) == charged(
                        old(self).queue.scope(1),
                        repository_scope(request.identity),
                        request.queued_bytes,
                    )
                    &&& final(self).queue.cursor == old(self).queue.cursor
                    &&& final(self).queue.dispatching@ == old(self).queue.dispatching@
                    &&& final(self).limits == old(self).limits
                    &&& final(self).last_observed_at == old(self).last_observed_at
                    &&& final(self).last_credit_at == old(self).last_credit_at
                },
            },
    {
        request.validate()?;
        if request.cost.fair_service_units > self.limits.max_deficit {
            return Err(CloneAdmissionError::InvalidCost);
        }
        let tenant = ScopeKey {
            tenant: request.identity.tenant.value.clone(),
            part: String::new(),
        };
        let repository = ScopeKey {
            tenant: request.identity.tenant.value.clone(),
            part: request.identity.repository.value.clone(),
        };
        let tenant_usage = self.queue.scopes[0].usage(&tenant);
        let repository_usage = self.queue.scopes[1].usage(&repository);
        assert(tenant@ == tenant_scope(request.identity));
        assert(repository@ == repository_scope(request.identity));
        assert(tenant_usage == usage_of(self.queue.scope(0), tenant@));
        assert(repository_usage == usage_of(self.queue.scope(1), repository@));
        let bytes: u64 = request.queued_bytes;
        match self.queue.queued_bytes.checked_add(bytes) {
            Some(total) => {
                if total > self.limits.max_queued_bytes {
                    return Err(CloneAdmissionError::QueueFull);
                }
            },
            None => {
                return Err(CloneAdmissionError::QueueFull);
            },
        }
        let tenant_quota = ScopeQuota {
            max_count: self.limits.max_tenant_queued,
            max_bytes: self.limits.max_tenant_queued_bytes,
        };
        let repository_quota = ScopeQuota {
            max_count: self.limits.max_repository_queued,
            max_bytes: self.limits.max_repository_queued_bytes,
        };
        if self.queue.slots.len() >= self.limits.max_queued || !tenant_usage.fits(
            bytes,
            tenant_quota,
        ) || !repository_usage.fits(bytes, repository_quota) {
            return Err(CloneAdmissionError::QueueFull);
        }
        if self.queue.next_ticket == u64::MAX {
            return Err(CloneAdmissionError::TicketOverflow);
        }
        let mut keys: Vec<ScopeKey> = Vec::new();
        keys.push(tenant);
        keys.push(repository);
        let ghost before = *self;
        let ticket: u64 = self.queue.push(keys, bytes, request);
        proof {
            assert(self.queue.slots@.drop_last() =~= before.queue.slots@);
            let slot = self.queue.slots@.last();
            assert(slot_sound(slot, self.limits));
            assert forall|i: int| 0 <= i < self.queue.slots@.len() implies slot_sound(
                #[trigger] self.queue.slots@[i],
                self.limits,
            ) by {
                if i < before.queue.slots@.len() {
                    assert(self.queue.slots@[i] == before.queue.slots@[i]);
                }
            }
            assert(self.queue.scope(0) == charged(
                before.queue.scope(0),
                tenant_scope(request.identity),
                bytes,
            ));
            assert(self.queue.scope(1) == charged(
                before.queue.scope(1),
                repository_scope(request.identity),
                bytes,
            ));
        }
        Ok(CloneAdmissionTicket { value: ticket })
    }
}

/// One request leaves a queue between two states.
pub open spec fn slot_removed(before: CloneQueueState, after: CloneQueueState, at: int) -> bool {
    let slot = before.queue.slots@[at];
    &&& 0 <= at < before.queue.slots@.len()
    &&& after.queue.slots@ == before.queue.slots@.remove(at)
    &&& after.queue.next_ticket == before.queue.next_ticket
    &&& after.queue.queued_bytes == before.queue.queued_bytes - slot.bytes
    &&& after.queue.scope(0) == discharged(
        before.queue.scope(0),
        tenant_scope(slot.request.identity),
        slot.bytes,
    )
    &&& after.queue.scope(1) == discharged(
        before.queue.scope(1),
        repository_scope(slot.request.identity),
        slot.bytes,
    )
}

/// A request may be offered now: it is not being offered, it has been submitted, and its scopes have
/// the credit.
pub open spec fn eligible(
    queue: FairQueue<CloneAdmissionRequest>,
    at: int,
    observed_at: Timestamp,
    limits: CloneQueueLimits,
) -> bool {
    let slot = queue.slots@[at];
    let cost = cost_now(slot.request, observed_at, limits);
    &&& !queue.dispatching@.contains(slot.ticket)
    &&& observed_at.unix_nanos >= slot.request.submitted_at.unix_nanos
    &&& cost <= usage_of(queue.scope(0), tenant_scope(slot.request.identity)).credit()
    &&& cost <= usage_of(queue.scope(1), repository_scope(slot.request.identity)).credit()
}

/// A request that is not being offered cannot finish any more.
pub open spec fn expired(
    queue: FairQueue<CloneAdmissionRequest>,
    at: int,
    observed_at: Timestamp,
) -> bool {
    let slot = queue.slots@[at];
    !queue.dispatching@.contains(slot.ticket) && overdue(
        observed_at,
        slot.request.service_estimate,
        slot.request.deadline,
    )
}

/// One request offered to the controller.
#[derive(Debug)]
pub struct CloneOffer {
    /// Ticket of the request.
    pub ticket: CloneAdmissionTicket,
    /// Where it stood when it was offered.
    pub index: usize,
    /// Service units taken.
    pub cost: u64,
    /// Scopes that they were taken from.
    pub keys: Vec<ScopeKey>,
}

impl CloneOffer {
    /// There is a tenant scope and a repository scope.
    pub open spec fn wf(self) -> bool {
        self.keys@.len() == 2
    }

    /// The scopes are those of this identity.
    pub open spec fn paid_by(self, identity: AdmissionIdentity) -> bool {
        &&& self.keys@.len() == 2
        &&& self.keys@[0]@ == tenant_scope(identity)
        &&& self.keys@[1]@ == repository_scope(identity)
    }
}

/// What one scan of the queue decided.
#[derive(Debug)]
pub enum CloneSelection {
    /// Nothing can be offered.
    Waiting {
        /// Requests waiting.
        queued: usize,
    },
    /// One overdue request was removed.
    Expired {
        /// Its ticket.
        ticket: CloneAdmissionTicket,
    },
    /// One request is to be offered to the controller.
    Offer {
        /// The offer.
        offer: CloneOffer,
        /// The submission.
        request: AdmissionRequest,
    },
}

/// The queue after the credit of this observation, which is given at most once.
pub open spec fn credit_given(
    before: CloneQueueState,
    after: FairQueue<CloneAdmissionRequest>,
    observed_at: Timestamp,
) -> bool {
    let fresh = before.last_credit_at != Some(observed_at);
    let limits = before.limits;
    &&& after.same_but_credit(before.queue)
    &&& after.scope(0) == if fresh {
        credited(before.queue.scope(0), limits.fair_quantum, limits.max_deficit)
    } else {
        before.queue.scope(0)
    }
    &&& after.scope(1) == if fresh {
        credited(before.queue.scope(1), limits.fair_quantum, limits.max_deficit)
    } else {
        before.queue.scope(1)
    }
}

/// The first overdue request leaves.
pub open spec fn expires(
    before: CloneQueueState,
    after: CloneQueueState,
    observed_at: Timestamp,
    ticket: CloneAdmissionTicket,
    at: int,
) -> bool {
    &&& slot_removed(before, after, at)
    &&& before.queue.slots@[at].ticket == ticket.value
    &&& expired(before.queue, at, observed_at)
    &&& forall|j: int| 0 <= j < at ==> !#[trigger] expired(before.queue, j, observed_at)
    &&& after.queue.dispatching@ == before.queue.dispatching@
    &&& after.queue.cursor == before.queue.cursor
}

/// The first eligible request behind the cursor is offered and pays for it.
pub open spec fn offers(
    ready: FairQueue<CloneAdmissionRequest>,
    after: CloneQueueState,
    observed_at: Timestamp,
    offer: CloneOffer,
    request: AdmissionRequest,
    offset: int,
) -> bool {
    let len = ready.slots@.len();
    let at = rotated(ready.cursor, offset, len);
    let slot = ready.slots@[at];
    &&& 0 <= offset < len
    &&& eligible(ready, at, observed_at, after.limits)
    &&& forall|o: int|
        0 <= o < offset ==> !#[trigger] eligible(
            ready,
            rotated(ready.cursor, o, len),
            observed_at,
            after.limits,
        )
    &&& offer.index == at
    &&& offer.ticket.value == slot.ticket
    &&& offer.cost == cost_now(slot.request, observed_at, after.limits)
    &&& slot.request.submits(request)
    &&& offer.paid_by(slot.request.identity)
    &&& after.queue.slots@ == ready.slots@
    &&& after.queue.next_ticket == ready.next_ticket
    &&& after.queue.queued_bytes == ready.queued_bytes
    &&& after.queue.cursor == ready.cursor
    &&& after.queue.dispatching@ == ready.dispatching@.push(slot.ticket)
    &&& after.queue.scope(0) == debited(
        ready.scope(0),
        tenant_scope(slot.request.identity),
        offer.cost,
    )
    &&& after.queue.scope(1) == debited(
        ready.scope(1),
        repository_scope(slot.request.identity),
        offer.cost,
    )
}

/// Nothing is eligible.
pub open spec fn none_eligible(
    ready: FairQueue<CloneAdmissionRequest>,
    observed_at: Timestamp,
    limits: CloneQueueLimits,
) -> bool {
    forall|i: int|
        0 <= i < ready.slots@.len() ==> !#[trigger] eligible(ready, i, observed_at, limits)
}

impl CloneQueueState {
    /// Everything but the queue is the same.
    pub open spec fn same_clock(self, other: CloneQueueState) -> bool {
        &&& self.limits == other.limits
        &&& self.last_observed_at == other.last_observed_at
        &&& self.last_credit_at == other.last_credit_at
    }

    /// Remove a waiting request.
    fn remove_queued(&mut self, at: usize) -> (slot: QueueSlot<CloneAdmissionRequest>)
        requires
            old(self).wf(),
            at < old(self).queue.slots@.len(),
        ensures
            final(self).wf(),
            final(self).same_clock(*old(self)),
            slot == old(self).queue.slots@[at as int],
            slot_removed(*old(self), *final(self), at as int),
            final(self).queue.cursor == old(self).queue.cursor,
            final(self).queue.dispatching@ == old(self).queue.dispatching@,
    {
        let ghost before = *self;
        assert(slot_sound(before.queue.slots@[at as int], before.limits));
        let slot = self.queue.remove(at);
        proof {
            assert(self.queue.scope(0) == discharged(
                before.queue.scope(0),
                slot.keys@[0]@,
                slot.bytes,
            ));
            assert(self.queue.scope(1) == discharged(
                before.queue.scope(1),
                slot.keys@[1]@,
                slot.bytes,
            ));
            assert(scope_matches(before.queue.scope(0), slot_charges(before.queue.slots@, 0)));
            assert(scope_matches(before.queue.scope(1), slot_charges(before.queue.slots@, 1)));
            crate::fair_queue::lemma_discharged_matches(
                before.queue.scope(0),
                slot_charges(before.queue.slots@, 0),
                at as int,
            );
            crate::fair_queue::lemma_discharged_matches(
                before.queue.scope(1),
                slot_charges(before.queue.slots@, 1),
                at as int,
            );
            lemma_discharge_keeps_bounds(
                before.queue.scope(0),
                slot.keys@[0]@,
                slot.bytes,
                self.limits.tenant_quota(),
                self.limits.max_deficit,
            );
            lemma_discharge_keeps_bounds(
                before.queue.scope(1),
                slot.keys@[1]@,
                slot.bytes,
                self.limits.repository_quota(),
                self.limits.max_deficit,
            );
            assert forall|i: int| 0 <= i < self.queue.slots@.len() implies slot_sound(
                #[trigger] self.queue.slots@[i],
                self.limits,
            ) by {
                if i < at {
                    assert(self.queue.slots@[i] == before.queue.slots@[i]);
                } else {
                    assert(self.queue.slots@[i] == before.queue.slots@[i + 1]);
                }
            }
        }
        slot
    }

    /// Give service units back to the scopes of an offer.
    fn refund_deficit(&mut self, keys: &Vec<ScopeKey>, units: u64)
        requires
            old(self).wf(),
            keys@.len() == 2,
        ensures
            final(self).wf(),
            final(self).same_clock(*old(self)),
            final(self).queue.same_but_credit(old(self).queue),
            final(self).queue.scope(0) == refunded(
                old(self).queue.scope(0),
                keys@[0]@,
                units,
                old(self).limits.max_deficit,
            ),
            final(self).queue.scope(1) == refunded(
                old(self).queue.scope(1),
                keys@[1]@,
                units,
                old(self).limits.max_deficit,
            ),
    {
        let ghost before = *self;
        self.queue.refund(keys, units, self.limits.max_deficit);
        proof {
            assert(self.queue.scope(0) == refunded(
                before.queue.scope(0),
                keys@[0]@,
                units,
                self.limits.max_deficit,
            ));
            assert(self.queue.scope(1) == refunded(
                before.queue.scope(1),
                keys@[1]@,
                units,
                self.limits.max_deficit,
            ));
            lemma_credit_keeps_bounds(
                before.queue.scope(0),
                keys@[0]@,
                units,
                self.limits.tenant_quota(),
                self.limits.max_deficit,
            );
            lemma_credit_keeps_bounds(
                before.queue.scope(1),
                keys@[1]@,
                units,
                self.limits.repository_quota(),
                self.limits.max_deficit,
            );
        }
    }

    /// Cancel a waiting request, and return whether it waited.
    pub fn cancel(&mut self, ticket: CloneAdmissionTicket) -> (removed: bool)
        requires
            old(self).wf(),
        ensures
            final(self).wf(),
            final(self).same_clock(*old(self)),
            removed == old(self).queue.waits(ticket.value),
            !removed ==> *final(self) == *old(self),
            !final(self).queue.waits(ticket.value),
            removed ==> exists|at: int|
                #[trigger] slot_removed(*old(self), *final(self), at)
                    && old(self).queue.slots@[at].ticket == ticket.value,
            final(self).queue.dispatching@ == old(self).queue.dispatching@,
            final(self).queue.cursor == old(self).queue.cursor,
    {
        match self.queue.locate(ticket.value, 0) {
            Some(at) => {
                let ghost before = *self;
                let _ = self.remove_queued(at);
                proof {
                    assert(before.queue.slots@[at as int].ticket == ticket.value);
                    lemma_removed_ticket_gone(before, *self, at as int);
                }
                true
            },
            None => false,
        }
    }

    /// Return the number of waiting requests.
    pub fn queued(&self) -> (count: usize)
        ensures
            count == self.queue.slots@.len(),
    {
        self.queue.slots.len()
    }
}

/// A removed request no longer waits, and every other one still does.
proof fn lemma_removed_ticket_gone(before: CloneQueueState, after: CloneQueueState, at: int)
    requires
        before.wf(),
        slot_removed(before, after, at),
    ensures
        !after.queue.waits(before.queue.slots@[at].ticket),
        forall|ticket: u64|
            ticket != before.queue.slots@[at].ticket ==> (#[trigger] after.queue.waits(ticket)
                == before.queue.waits(ticket)),
{
    let gone = before.queue.slots@[at].ticket;
    assert forall|i: int| 0 <= i < after.queue.slots@.len() implies (
    #[trigger] after.queue.slots@[i]).ticket != gone by {
        if i < at {
            assert(after.queue.slots@[i] == before.queue.slots@[i]);
            assert(before.queue.slots@[i].ticket < before.queue.slots@[at].ticket);
        } else {
            assert(after.queue.slots@[i] == before.queue.slots@[i + 1]);
            assert(before.queue.slots@[at].ticket < before.queue.slots@[i + 1].ticket);
        }
    }
    assert forall|ticket: u64| ticket != gone implies (#[trigger] after.queue.waits(ticket)
        == before.queue.waits(ticket)) by {
        if before.queue.waits(ticket) {
            let i = choose|i: int|
                0 <= i < before.queue.slots@.len() && (#[trigger] before.queue.slots@[i]).ticket
                    == ticket;
            if i < at {
                assert(after.queue.slots@[i].ticket == ticket);
            } else {
                assert(after.queue.slots@[i - 1].ticket == ticket);
            }
        }
        if after.queue.waits(ticket) {
            let i = choose|i: int|
                0 <= i < after.queue.slots@.len() && (#[trigger] after.queue.slots@[i]).ticket
                    == ticket;
            if i < at {
                assert(before.queue.slots@[i].ticket == ticket);
            } else {
                assert(before.queue.slots@[i + 1].ticket == ticket);
            }
        }
    }
}

/// Scanning every offset scans every request.
proof fn lemma_scan_covers(
    ready: FairQueue<CloneAdmissionRequest>,
    observed_at: Timestamp,
    limits: CloneQueueLimits,
)
    requires
        forall|o: int|
            0 <= o < ready.slots@.len() ==> !#[trigger] eligible(
                ready,
                rotated(ready.cursor, o, ready.slots@.len()),
                observed_at,
                limits,
            ),
    ensures
        none_eligible(ready, observed_at, limits),
{
    let len = ready.slots@.len();
    assert forall|i: int| 0 <= i < len implies !#[trigger] eligible(
        ready,
        i,
        observed_at,
        limits,
    ) by {
        lemma_rotated(ready.cursor, 0, len);
        let start = ready.cursor as int % len as int;
        let o = if i >= start {
            i - start
        } else {
            i + len - start
        };
        lemma_rotated(ready.cursor, o, len);
        assert(rotated(ready.cursor, o, len) == i);
    }
}

/// Some overdue request is the first, and leaves.
pub open spec fn one_expires(
    before: CloneQueueState,
    after: CloneQueueState,
    observed_at: Timestamp,
    ticket: CloneAdmissionTicket,
) -> bool {
    exists|at: int| #[trigger] expires(before, after, observed_at, ticket, at)
}

/// Some eligible request is the first, and is offered.
pub open spec fn one_offered(
    before: CloneQueueState,
    after: CloneQueueState,
    observed_at: Timestamp,
    offer: CloneOffer,
    request: AdmissionRequest,
) -> bool {
    exists|ready: FairQueue<CloneAdmissionRequest>, offset: int|
        credit_given(before, ready, observed_at) && #[trigger] offers(
            ready,
            after,
            observed_at,
            offer,
            request,
            offset,
        )
}

/// No request is overdue.
pub open spec fn none_expired(queue: FairQueue<CloneAdmissionRequest>, observed_at: Timestamp) -> bool {
    forall|i: int| 0 <= i < queue.slots@.len() ==> !#[trigger] expired(queue, i, observed_at)
}

/// What one scan may do: remove the first overdue request; otherwise give credit and offer the first
/// eligible request, if there is one.
pub open spec fn selection_follows(
    before: CloneQueueState,
    after: CloneQueueState,
    observed_at: Timestamp,
    selection: CloneSelection,
) -> bool {
    &&& after.limits == before.limits
    &&& after.last_observed_at == Some(observed_at)
    &&& match selection {
        CloneSelection::Waiting { queued } => {
            &&& queued == before.queue.slots@.len()
            &&& if queued == 0 {
                after.queue == before.queue && after.last_credit_at == before.last_credit_at
            } else {
                &&& none_expired(before.queue, observed_at)
                &&& credit_given(before, after.queue, observed_at)
                &&& none_eligible(after.queue, observed_at, before.limits)
                &&& after.last_credit_at == Some(observed_at)
            }
        },
        CloneSelection::Expired { ticket } => {
            &&& one_expires(before, after, observed_at, ticket)
            &&& after.last_credit_at == before.last_credit_at
        },
        CloneSelection::Offer { offer, request } => {
            &&& none_expired(before.queue, observed_at)
            &&& after.last_credit_at == Some(observed_at)
            &&& one_offered(before, after, observed_at, offer, request)
        },
    }
}

impl CloneQueueState {
    /// Find the first overdue request that is not being offered.
    fn find_expired<B: CloneQueueWorkBudget>(
        &self,
        observed_at: Timestamp,
        budget: &mut B,
    ) -> (result: Result<Option<usize>, CloneAdmissionError>)
        requires
            self.wf(),
            observed_at.in_range(),
        ensures
            result is Ok && self.queue.slots@.len() > 0 ==> B::answers(1, true),
            result is Ok ==> spent_within(
                old(budget).allowance(),
                final(budget).allowance(),
                self.queue.slots@.len() as int,
            ),
            match result {
                Ok(Some(at)) => {
                    &&& at < self.queue.slots@.len()
                    &&& expired(self.queue, at as int, observed_at)
                    &&& forall|j: int| 0 <= j < at ==> !#[trigger] expired(self.queue, j, observed_at)
                },
                Ok(None) => none_expired(self.queue, observed_at),
                Err(error) => {
                    &&& error == CloneAdmissionError::WorkBudget
                    &&& self.queue.slots@.len() > 0
                    &&& B::answers(1, false)
                    &&& short_of(old(budget).allowance(), self.queue.slots@.len() as int)
                },
            },
    {
        let mut at: usize = 0;
        while at < self.queue.slots.len()
            invariant
                self.wf(),
                observed_at.in_range(),
                at <= self.queue.slots@.len(),
                at > 0 ==> B::answers(1, true),
                spent_within(old(budget).allowance(), budget.allowance(), at as int),
                forall|j: int| 0 <= j < at ==> !#[trigger] expired(self.queue, j, observed_at),
            decreases self.queue.slots.len() - at,
        {
            if !budget.charge(1) {
                return Err(CloneAdmissionError::WorkBudget);
            }
            let slot = &self.queue.slots[at];
            assert(slot_sound(self.queue.slots@[at as int], self.limits));
            if is_overdue(observed_at, slot.request.service_estimate, slot.request.deadline)
                && !self.queue.is_dispatching(slot.ticket) {
                return Ok(Some(at));
            }
            assert(!expired(self.queue, at as int, observed_at));
            at = at + 1;
        }
        Ok(None)
    }

    /// Find the first eligible request behind the cursor, and its cost.
    fn find_eligible<B: CloneQueueWorkBudget>(
        &self,
        observed_at: Timestamp,
        budget: &mut B,
    ) -> (result: Result<Option<(usize, u64, Ghost<int>)>, CloneAdmissionError>)
        requires
            self.wf(),
            observed_at.in_range(),
        ensures
            result is Ok && self.queue.slots@.len() > 0 ==> B::answers(1, true),
            result is Ok ==> spent_within(
                old(budget).allowance(),
                final(budget).allowance(),
                self.queue.slots@.len() as int,
            ),
            match result {
                Ok(Some((at, cost, offset))) => {
                    let len = self.queue.slots@.len();
                    &&& 0 <= offset@ < len
                    &&& at == rotated(self.queue.cursor, offset@, len)
                    &&& 0 <= at < len
                    &&& eligible(self.queue, at as int, observed_at, self.limits)
                    &&& cost == cost_now(
                        self.queue.slots@[at as int].request,
                        observed_at,
                        self.limits,
                    )
                    &&& forall|o: int|
                        0 <= o < offset@ ==> !#[trigger] eligible(
                            self.queue,
                            rotated(self.queue.cursor, o, len),
                            observed_at,
                            self.limits,
                        )
                },
                Ok(None) => none_eligible(self.queue, observed_at, self.limits),
                Err(error) => {
                    &&& error == CloneAdmissionError::WorkBudget
                    &&& self.queue.slots@.len() > 0
                    &&& B::answers(1, false)
                    &&& short_of(old(budget).allowance(), self.queue.slots@.len() as int)
                },
            },
    {
        let len: usize = self.queue.slots.len();
        if len == 0 {
            return Ok(None);
        }
        let start: usize = self.queue.cursor % len;
        let mut offset: usize = 0;
        while offset < len
            invariant
                self.wf(),
                observed_at.in_range(),
                len == self.queue.slots@.len(),
                len > 0,
                start == self.queue.cursor as int % len as int,
                offset <= len,
                offset > 0 ==> B::answers(1, true),
                spent_within(old(budget).allowance(), budget.allowance(), offset as int),
                forall|o: int|
                    0 <= o < offset ==> !#[trigger] eligible(
                        self.queue,
                        rotated(self.queue.cursor, o, self.queue.slots@.len()),
                        observed_at,
                        self.limits,
                    ),
            decreases len - offset,
        {
            if !budget.charge(1) {
                return Err(CloneAdmissionError::WorkBudget);
            }
            proof {
                lemma_rotated(self.queue.cursor, offset as int, len as nat);
            }
            let at: usize = if offset < len - start {
                start + offset
            } else {
                offset - (len - start)
            };
            let slot = &self.queue.slots[at];
            assert(slot_sound(self.queue.slots@[at as int], self.limits));
            if !self.queue.is_dispatching(slot.ticket) && observed_at.unix_nanos
                >= slot.request.submitted_at.unix_nanos {
                let cost: u64 = effective_cost(&slot.request, observed_at, self.limits);
                let tenant: ScopeUsage = self.queue.scopes[0].usage(&slot.keys[0]);
                let repository: ScopeUsage = self.queue.scopes[1].usage(&slot.keys[1]);
                assert(tenant == usage_of(
                    self.queue.scope(0),
                    tenant_scope(slot.request.identity),
                ));
                assert(repository == usage_of(
                    self.queue.scope(1),
                    repository_scope(slot.request.identity),
                ));
                if covers(tenant, cost) && covers(repository, cost) {
                    return Ok(Some((at, cost, Ghost(offset as int))));
                }
            }
            assert(!eligible(self.queue, at as int, observed_at, self.limits));
            offset = offset + 1;
        }
        proof {
            lemma_scan_covers(self.queue, observed_at, self.limits);
        }
        Ok(None)
    }

    /// Give the credit of an observation, at most once.
    fn give_credit<B: CloneQueueWorkBudget>(
        &mut self,
        observed_at: Timestamp,
        budget: &mut B,
    ) -> (result: Result<(), CloneAdmissionError>)
        requires
            old(self).wf(),
        ensures
            final(self).wf(),
            final(self).limits == old(self).limits,
            final(self).last_observed_at == old(self).last_observed_at,
            result is Ok ==> spent_within(
                old(budget).allowance(),
                final(budget).allowance(),
                old(self).queue.slots@.len() as int,
            ),
            match result {
                Ok(()) => credit_given(*old(self), final(self).queue, observed_at)
                    && final(self).last_credit_at == Some(observed_at) && (
                old(self).last_credit_at != Some(observed_at) ==> B::answers(
                    old(self).queue.slots@.len() as u64,
                    true,
                )),
                Err(error) => {
                    &&& error == CloneAdmissionError::WorkBudget
                    &&& old(self).last_credit_at != Some(observed_at)
                    &&& B::answers(old(self).queue.slots@.len() as u64, false)
                    &&& short_of(old(budget).allowance(), old(self).queue.slots@.len() as int)
                    &&& *final(self) == *old(self)
                },
            },
    {
        if self.last_credit_at == Some(observed_at) {
            return Ok(());
        }
        if !budget.charge(self.queue.slots.len() as u64) {
            return Err(CloneAdmissionError::WorkBudget);
        }
        let ghost before = *self;
        self.queue.credit(self.limits.fair_quantum, self.limits.max_deficit);
        self.last_credit_at = Some(observed_at);
        proof {
            assert(self.queue.scope(0) == credited(
                before.queue.scope(0),
                self.limits.fair_quantum,
                self.limits.max_deficit,
            ));
            assert(self.queue.scope(1) == credited(
                before.queue.scope(1),
                self.limits.fair_quantum,
                self.limits.max_deficit,
            ));
            lemma_credit_keeps_bounds(
                before.queue.scope(0),
                (Seq::empty(), Seq::empty()),
                self.limits.fair_quantum,
                self.limits.tenant_quota(),
                self.limits.max_deficit,
            );
            lemma_credit_keeps_bounds(
                before.queue.scope(1),
                (Seq::empty(), Seq::empty()),
                self.limits.fair_quantum,
                self.limits.repository_quota(),
                self.limits.max_deficit,
            );
        }
        Ok(())
    }

    /// Offer a request: note it and take its service units.
    fn begin_offer(&mut self, at: usize, cost: u64) -> (begun: (CloneOffer, AdmissionRequest))
        requires
            old(self).wf(),
            at < old(self).queue.slots@.len(),
            !old(self).queue.dispatching@.contains(old(self).queue.slots@[at as int].ticket),
        ensures
            final(self).wf(),
            final(self).same_clock(*old(self)),
            begun.0.paid_by(old(self).queue.slots@[at as int].request.identity),
            begun.0.index == at,
            begun.0.cost == cost,
            begun.0.ticket.value == old(self).queue.slots@[at as int].ticket,
            old(self).queue.slots@[at as int].request.submits(begun.1),
            final(self).queue.slots@ == old(self).queue.slots@,
            final(self).queue.next_ticket == old(self).queue.next_ticket,
            final(self).queue.queued_bytes == old(self).queue.queued_bytes,
            final(self).queue.cursor == old(self).queue.cursor,
            final(self).queue.dispatching@ == old(self).queue.dispatching@.push(
                old(self).queue.slots@[at as int].ticket,
            ),
            final(self).queue.scope(0) == debited(
                old(self).queue.scope(0),
                tenant_scope(old(self).queue.slots@[at as int].request.identity),
                cost,
            ),
            final(self).queue.scope(1) == debited(
                old(self).queue.scope(1),
                repository_scope(old(self).queue.slots@[at as int].request.identity),
                cost,
            ),
    {
        let ghost before = *self;
        assert(slot_sound(before.queue.slots@[at as int], before.limits));
        let ticket: u64 = self.queue.slots[at].ticket;
        let request = self.queue.slots[at].request.admission_request();
        let mut keys: Vec<ScopeKey> = Vec::new();
        keys.push(self.queue.slots[at].keys[0].clone());
        keys.push(self.queue.slots[at].keys[1].clone());
        self.queue.begin_dispatch(ticket);
        let ghost noted = *self;
        assert(noted.queue.scope(0) == before.queue.scope(0));
        assert(noted.queue.scope(1) == before.queue.scope(1));
        self.queue.debit(&keys, cost);
        proof {
            assert(self.queue.scope(0) == debited(before.queue.scope(0), keys@[0]@, cost));
            assert(self.queue.scope(1) == debited(before.queue.scope(1), keys@[1]@, cost));
            lemma_credit_keeps_bounds(
                before.queue.scope(0),
                keys@[0]@,
                cost,
                self.limits.tenant_quota(),
                self.limits.max_deficit,
            );
            lemma_credit_keeps_bounds(
                before.queue.scope(1),
                keys@[1]@,
                cost,
                self.limits.repository_quota(),
                self.limits.max_deficit,
            );
        }
        (
            CloneOffer { ticket: CloneAdmissionTicket { value: ticket }, index: at, cost, keys },
            request,
        )
    }

    /// Run one scan of the queue.
    ///
    /// A scan that runs out of budget leaves every request waiting.
    pub fn select<B: CloneQueueWorkBudget>(
        &mut self,
        observed_at: Timestamp,
        budget: &mut B,
    ) -> (result: Result<CloneSelection, CloneAdmissionError>)
        requires
            old(self).wf(),
            observed_at.in_range(),
        ensures
            final(self).wf(),
            final(self).limits == old(self).limits,
            moved_back(old(self).last_observed_at, observed_at) ==> result == Err::<
                CloneSelection,
                CloneAdmissionError,
            >(CloneAdmissionError::NonMonotonicTime) && *final(self) == *old(self),
            !moved_back(old(self).last_observed_at, observed_at)
                && old(self).queue.slots@.len() == 0 ==> result is Ok,
            result matches Ok(selection) ==> charges_granted::<B>(
                *old(self),
                observed_at,
                selection is Expired,
            ),
            match result {
                Ok(selection) => selection_follows(
                    *old(self),
                    *final(self),
                    observed_at,
                    selection,
                ),
                Err(error) => {
                    &&& error == CloneAdmissionError::NonMonotonicTime <==> moved_back(
                        old(self).last_observed_at,
                        observed_at,
                    )
                    &&& error == CloneAdmissionError::NonMonotonicTime || {
                        &&& error == CloneAdmissionError::WorkBudget
                        &&& scan_refused::<B>(*old(self), observed_at)
                        &&& short_of(
                            old(budget).allowance(),
                            3 * old(self).queue.slots@.len() as int,
                        )
                        &&& scan_stopped(*old(self), *final(self), observed_at)
                    }
                },
            },
    {
        if time_moved_back(self.last_observed_at, observed_at) {
            return Err(CloneAdmissionError::NonMonotonicTime);
        }
        let ghost first = *self;
        self.last_observed_at = Some(observed_at);
        if self.queue.slots.len() == 0 {
            return Ok(CloneSelection::Waiting { queued: 0 });
        }
        match self.find_expired(observed_at, budget)? {
            Some(at) => {
                let slot = self.remove_queued(at);
                let ticket = CloneAdmissionTicket { value: slot.ticket };
                proof {
                    assert(slot_removed(first, *self, at as int));
                    assert(expires(first, *self, observed_at, ticket, at as int));
                    assert(one_expires(first, *self, observed_at, ticket));
                }
                return Ok(CloneSelection::Expired { ticket });
            },
            None => {},
        }
        self.give_credit(observed_at, budget)?;
        let ghost ready = self.queue;
        assert(credit_given(first, ready, observed_at));
        match self.find_eligible(observed_at, budget)? {
            Some((at, cost, offset)) => {
                let (offer, request) = self.begin_offer(at, cost);
                proof {
                    assert(offers(ready, *self, observed_at, offer, request, offset@));
                    assert(one_offered(first, *self, observed_at, offer, request));
                }
                Ok(CloneSelection::Offer { offer, request })
            },
            None => Ok(CloneSelection::Waiting { queued: self.queue.slots.len() }),
        }
    }
}

/// An offer of a request that waits at `at` has ended.
pub open spec fn offer_finished(
    before: CloneQueueState,
    after: CloneQueueState,
    offer: CloneOffer,
    remove: bool,
    refund: bool,
    at: int,
) -> bool {
    let slot = before.queue.slots@[at];
    let maximum = before.limits.max_deficit;
    let len = after.queue.slots@.len();
    &&& 0 <= at < before.queue.slots@.len()
    &&& slot.ticket == offer.ticket.value
    &&& after.queue.next_ticket == before.queue.next_ticket
    &&& offer_ended(
        before.queue.dispatching@,
        after.queue.dispatching@,
        offer.ticket.value,
    )
    &&& if remove {
        &&& after.queue.slots@ == before.queue.slots@.remove(at)
        &&& after.queue.scope(0) == credit_after(
            discharged(before.queue.scope(0), tenant_scope(slot.request.identity), slot.bytes),
            offer.keys@[0]@,
            offer.cost,
            maximum,
            refund,
        )
        &&& after.queue.scope(1) == credit_after(
            discharged(before.queue.scope(1), repository_scope(slot.request.identity), slot.bytes),
            offer.keys@[1]@,
            offer.cost,
            maximum,
            refund,
        )
        &&& after.queue.cursor == if len == 0 {
            0
        } else {
            at % len as int
        }
    } else {
        &&& after.queue.slots@ == before.queue.slots@
        &&& after.queue.scope(0) == credit_after(
            before.queue.scope(0),
            offer.keys@[0]@,
            offer.cost,
            maximum,
            refund,
        )
        &&& after.queue.scope(1) == credit_after(
            before.queue.scope(1),
            offer.keys@[1]@,
            offer.cost,
            maximum,
            refund,
        )
        &&& after.queue.cursor == (at + 1) % len as int
    }
}

/// An offer of a request that no longer waits has ended, and its scopes got their units back.
pub open spec fn offer_withdrawn(
    before: CloneQueueState,
    after: CloneQueueState,
    offer: CloneOffer,
) -> bool {
    let maximum = before.limits.max_deficit;
    &&& after.queue.slots@ == before.queue.slots@
    &&& after.queue.cursor == before.queue.cursor
    &&& after.queue.next_ticket == before.queue.next_ticket
    &&& offer_ended(
        before.queue.dispatching@,
        after.queue.dispatching@,
        offer.ticket.value,
    )
    &&& after.queue.scope(0) == refunded(
        before.queue.scope(0),
        offer.keys@[0]@,
        offer.cost,
        maximum,
    )
    &&& after.queue.scope(1) == refunded(
        before.queue.scope(1),
        offer.keys@[1]@,
        offer.cost,
        maximum,
    )
}

/// What ending an offer may do.
pub open spec fn finish_follows(
    before: CloneQueueState,
    after: CloneQueueState,
    offer: CloneOffer,
    remove: bool,
    refund: bool,
    finished: bool,
) -> bool {
    if !before.queue.dispatching@.contains(offer.ticket.value) {
        !finished && after == before
    } else if !before.queue.waits(offer.ticket.value) {
        !finished && offer_withdrawn(before, after, offer)
    } else {
        finished && exists|at: int| #[trigger]
            offer_finished(before, after, offer, remove, refund, at)
    }
}

/// What came of a granted offer.
#[derive(Debug)]
pub enum GrantFinalization {
    /// The request left the queue and may run.
    Accepted(CloneAdmissionRequest),
    /// The request left the queue, but can no longer finish.
    Deadline,
    /// The request had left the queue before.
    Cancelled,
}

/// The time at which a grant is judged.
pub open spec fn grant_time(
    last_observed_at: Option<Timestamp>,
    request: CloneAdmissionRequest,
) -> Timestamp {
    match last_observed_at {
        Some(observed_at) => observed_at,
        None => request.submitted_at,
    }
}

/// What a grant may do to the queue.
pub open spec fn grant_follows(
    before: CloneQueueState,
    after: CloneQueueState,
    offer: CloneOffer,
    decision: GrantFinalization,
) -> bool {
    if !before.queue.dispatching@.contains(offer.ticket.value) {
        decision is Cancelled && after == before
    } else if !before.queue.waits(offer.ticket.value) {
        decision is Cancelled && offer_withdrawn(before, after, offer)
    } else {
        exists|at: int| #[trigger] grant_finished(before, after, offer, decision, at)
    }
}

/// A granted request leaves the queue; one that can no longer finish gives its units back.
pub open spec fn grant_finished(
    before: CloneQueueState,
    after: CloneQueueState,
    offer: CloneOffer,
    decision: GrantFinalization,
    at: int,
) -> bool {
    let request = before.queue.slots@[at].request;
    let late = overdue(
        grant_time(before.last_observed_at, request),
        request.service_estimate,
        request.deadline,
    );
    &&& offer_finished(before, after, offer, true, late, at)
    &&& if late {
        decision is Deadline
    } else {
        decision == GrantFinalization::Accepted(request)
    }
}

impl CloneQueueState {
    /// The last observation is representable.
    pub open spec fn clock_in_range(self) -> bool {
        self.last_observed_at is Some ==> self.last_observed_at->0.in_range()
    }

    /// End an offer that was not granted, and return whether its request still waited.
    pub fn finish_dispatch(&mut self, offer: &CloneOffer, remove: bool, refund: bool) -> (finished:
        bool)
        requires
            old(self).wf(),
            offer.wf(),
        ensures
            final(self).wf(),
            final(self).same_clock(*old(self)),
            finish_follows(*old(self), *final(self), *offer, remove, refund, finished),
    {
        let ghost before = *self;
        let ticket: u64 = offer.ticket.value;
        if !self.queue.end_dispatch(ticket) {
            return false;
        }
        proof {
            assert(self.queue.scope(0) == before.queue.scope(0));
            assert(self.queue.scope(1) == before.queue.scope(1));
            assert(self.queue.waits(ticket) == before.queue.waits(ticket));
        }
        let at: usize = match self.queue.locate(ticket, offer.index) {
            Some(at) => at,
            None => {
                self.refund_deficit(&offer.keys, offer.cost);
                return false;
            },
        };
        assert(before.queue.slots@[at as int].ticket == ticket);
        if remove {
            let _ = self.remove_queued(at);
        }
        if refund {
            self.refund_deficit(&offer.keys, offer.cost);
        }
        let len: usize = self.queue.slots.len();
        let next: usize = if len == 0 {
            0
        } else if remove {
            at % len
        } else if at + 1 == len {
            0
        } else {
            at + 1
        };
        let ghost late = *self;
        self.queue.cursor = next;
        proof {
            assert(self.queue.scope(0) == late.queue.scope(0));
            assert(self.queue.scope(1) == late.queue.scope(1));
            lemma_cursor_keeps_wf(late, *self);
            if !remove {
                if at + 1 == len {
                    vstd::arithmetic::div_mod::lemma_mod_self_0(len as int);
                } else {
                    vstd::arithmetic::div_mod::lemma_small_mod((at + 1) as nat, len as nat);
                }
            }
            assert(offer_finished(before, *self, *offer, remove, refund, at as int));
        }
        true
    }

    /// End an offer that was granted.
    pub fn finish_granted_dispatch(&mut self, offer: &CloneOffer) -> (decision: GrantFinalization)
        requires
            old(self).wf(),
            old(self).clock_in_range(),
            offer.wf(),
        ensures
            final(self).wf(),
            final(self).same_clock(*old(self)),
            grant_follows(*old(self), *final(self), *offer, decision),
    {
        let ghost before = *self;
        let ticket: u64 = offer.ticket.value;
        if !self.queue.end_dispatch(ticket) {
            return GrantFinalization::Cancelled;
        }
        proof {
            assert(self.queue.scope(0) == before.queue.scope(0));
            assert(self.queue.scope(1) == before.queue.scope(1));
            assert(self.queue.waits(ticket) == before.queue.waits(ticket));
        }
        let at: usize = match self.queue.locate(ticket, offer.index) {
            Some(at) => at,
            None => {
                self.refund_deficit(&offer.keys, offer.cost);
                return GrantFinalization::Cancelled;
            },
        };
        assert(before.queue.slots@[at as int].ticket == ticket);
        assert(slot_sound(before.queue.slots@[at as int], before.limits));
        let slot = self.remove_queued(at);
        let observed_at: Timestamp = match self.last_observed_at {
            Some(observed_at) => observed_at,
            None => slot.request.submitted_at,
        };
        let late: bool = is_overdue(
            observed_at,
            slot.request.service_estimate,
            slot.request.deadline,
        );
        if late {
            self.refund_deficit(&offer.keys, offer.cost);
        }
        let len: usize = self.queue.slots.len();
        let next: usize = if len == 0 {
            0
        } else {
            at % len
        };
        let ghost ended = *self;
        self.queue.cursor = next;
        let decision = if late {
            GrantFinalization::Deadline
        } else {
            GrantFinalization::Accepted(slot.request)
        };
        proof {
            assert(self.queue.scope(0) == ended.queue.scope(0));
            assert(self.queue.scope(1) == ended.queue.scope(1));
            lemma_cursor_keeps_wf(ended, *self);
            assert(offer_finished(before, *self, *offer, true, late, at as int));
            assert(grant_finished(before, *self, *offer, decision, at as int));
        }
        decision
    }
}

/// Moving the cursor keeps every bound and record.
proof fn lemma_cursor_keeps_wf(before: CloneQueueState, after: CloneQueueState)
    requires
        before.wf(),
        after.limits == before.limits,
        after.queue.slots == before.queue.slots,
        after.queue.scopes == before.queue.scopes,
        after.queue.next_ticket == before.queue.next_ticket,
        after.queue.queued_bytes == before.queue.queued_bytes,
        after.queue.dispatching == before.queue.dispatching,
    ensures
        after.wf(),
{
    assert(after.queue.wf()) by {
        assert forall|kind: int| 0 <= kind < after.queue.scopes@.len() implies scope_matches(
            #[trigger] after.queue.scope(kind),
            slot_charges(after.queue.slots@, kind),
        ) by {
            assert(after.queue.scope(kind) == before.queue.scope(kind));
        }
    }
    assert(after.queue.scope(0) == before.queue.scope(0));
    assert(after.queue.scope(1) == before.queue.scope(1));
}

/// Permit of an admitted clone; dropping it gives the capacity back.
#[derive(Debug)]
pub struct CloneExecutionPermit<P> {
    admission: Option<P>,
}

impl<P> CloneExecutionPermit<P> {
    /// The reserved capacity.
    pub closed spec fn held(self) -> Option<P> {
        self.admission
    }

    /// Hold reserved capacity.
    pub fn new(admission: P) -> (permit: Self)
        ensures
            permit.held() == Some(admission),
    {
        CloneExecutionPermit { admission: Some(admission) }
    }

    /// Give the capacity back before the permit leaves scope.
    pub fn release(self) {
        let mut permit = self;
        let _ = permit.admission.take();
    }
}

/// One poll result.
#[derive(Debug)]
pub enum CloneScheduleDecision<P> {
    /// Nothing was eligible, or capacity is occupied.
    Waiting {
        /// Requests waiting.
        queued: usize,
    },
    /// One request holds capacity until its permit is released.
    Granted {
        /// Its ticket.
        ticket: CloneAdmissionTicket,
        /// The request.
        request: CloneAdmissionRequest,
        /// Its permit.
        permit: CloneExecutionPermit<P>,
    },
    /// One request was removed.
    Rejected {
        /// Its ticket.
        ticket: CloneAdmissionTicket,
        /// Why.
        reason: AdmissionRejectReason,
    },
}

/// Exactly one request left, and it had this ticket.
pub open spec fn one_left(
    before: Seq<QueueSlot<CloneAdmissionRequest>>,
    after: Seq<QueueSlot<CloneAdmissionRequest>>,
    ticket: u64,
) -> bool {
    exists|at: int| #[trigger] left_at(before, after, ticket, at)
}

/// The request at `at` left, and it had this ticket.
pub open spec fn left_at(
    before: Seq<QueueSlot<CloneAdmissionRequest>>,
    after: Seq<QueueSlot<CloneAdmissionRequest>>,
    ticket: u64,
    at: int,
) -> bool {
    0 <= at < before.len() && before[at].ticket == ticket && after == before.remove(at)
}

/// Exactly one request left, and it was this one.
pub open spec fn one_granted(
    before: Seq<QueueSlot<CloneAdmissionRequest>>,
    after: Seq<QueueSlot<CloneAdmissionRequest>>,
    ticket: u64,
    request: CloneAdmissionRequest,
) -> bool {
    exists|at: int| #[trigger] left_at(before, after, ticket, at) && before[at].request == request
}

/// How a round ends: the scan decides alone where nothing is offered; an offered request is granted,
/// removed or left waiting as the controller answers, and leaves the accounts in order.
pub open spec fn round_follows<P>(
    before: CloneQueueState,
    chosen: CloneQueueState,
    after: CloneQueueState,
    observed_at: Timestamp,
    selection: CloneSelection,
    result: Result<CloneScheduleDecision<P>, CloneAdmissionError>,
) -> bool {
    &&& selection_follows(before, chosen, observed_at, selection)
    &&& after.same_clock(chosen)
    &&& match selection {
        CloneSelection::Waiting { queued } => {
            &&& after == chosen
            &&& result matches Ok(CloneScheduleDecision::Waiting { queued: reported })
            &&& reported == queued
        },
        CloneSelection::Expired { ticket } => {
            &&& after == chosen
            &&& result matches Ok(CloneScheduleDecision::Rejected { ticket: removed, reason })
            &&& removed == ticket
            &&& reason == AdmissionRejectReason::Deadline
        },
        CloneSelection::Offer { offer, .. } => match result {
            Ok(CloneScheduleDecision::Granted { ticket, request, .. }) => ticket == offer.ticket
                && grant_follows(chosen, after, offer, GrantFinalization::Accepted(request)),
            Ok(CloneScheduleDecision::Rejected { ticket, reason }) => {
                &&& ticket == offer.ticket
                &&& {
                    ||| finish_follows(chosen, after, offer, true, true, true)
                    ||| reason == AdmissionRejectReason::Deadline && grant_follows(
                        chosen,
                        after,
                        offer,
                        GrantFinalization::Deadline,
                    )
                }
            },
            Ok(CloneScheduleDecision::Waiting { queued }) => queued == before.queue.slots@.len()
                && finish_follows(chosen, after, offer, false, true, true),
            Err(error) => error is Admission && finish_follows(
                chosen,
                after,
                offer,
                false,
                true,
                true,
            ),
        },
    }
}

/// The round ends as the controller answered.
pub open spec fn answer_heeded<P>(
    answer: Result<AdmissionOutcome, AdmissionConfigError>,
    result: Result<CloneScheduleDecision<P>, CloneAdmissionError>,
) -> bool {
    match answer {
        Ok(AdmissionOutcome::Granted) => result is Ok,
        Ok(AdmissionOutcome::Queued) => result matches Ok(CloneScheduleDecision::Waiting { .. }),
        Ok(AdmissionOutcome::Rejected { reason, .. }) => result matches Ok(CloneScheduleDecision::Rejected {
                reason: given,
                ..
            }) && given == reason,
        Err(error) => result == Err::<CloneScheduleDecision<P>, CloneAdmissionError>(
            CloneAdmissionError::Admission(error),
        ),
    }
}

/// The controller was asked about an offered request alone, and its answer was heeded; a permit is
/// given only where it granted one.
pub open spec fn controller_heeded<P>(
    told: Seq<AdmissionExchange>,
    tells: Seq<AdmissionExchange>,
    observed_at: Timestamp,
    selection: CloneSelection,
    result: Result<CloneScheduleDecision<P>, CloneAdmissionError>,
) -> bool {
    match selection {
        CloneSelection::Offer { request, .. } => exists|
            answer: Result<AdmissionOutcome, AdmissionConfigError>,
        |
            #[trigger] asked(told, tells, request, observed_at, answer) && answer_heeded(
                answer,
                result,
            ) && (result matches Ok(CloneScheduleDecision::Granted { .. }) ==> answer matches Ok(
                AdmissionOutcome::Granted,
            )),
        _ => tells == told,
    }
}

/// The round ends in order.
pub open spec fn poll_follows<P>(
    before: CloneQueueState,
    after: CloneQueueState,
    told: Seq<AdmissionExchange>,
    tells: Seq<AdmissionExchange>,
    observed_at: Timestamp,
    result: Result<CloneScheduleDecision<P>, CloneAdmissionError>,
) -> bool {
    exists|chosen: CloneQueueState, selection: CloneSelection| #[trigger]
        round_follows(before, chosen, after, observed_at, selection, result)
            && controller_heeded(told, tells, observed_at, selection, result)
}

/// Fair clone queue over a weighted controller.
pub struct CloneAdmissionScheduler<A: AdmissionController> {
    admission: A,
    state: CloneQueueState,
}

impl<A: AdmissionController> CloneAdmissionScheduler<A> {
    /// The queue.
    pub closed spec fn spec_state(self) -> CloneQueueState {
        self.state
    }

    /// What the controller was asked and answered so far.
    pub closed spec fn spec_exchanges(self) -> Seq<AdmissionExchange> {
        self.admission.exchanges()
    }

    /// The queue keeps every bound and record.
    pub open spec fn wf(self) -> bool {
        self.spec_state().wf() && self.spec_state().clock_in_range()
    }

    /// Create a scheduler over a controller.
    pub fn new(admission: A, limits: CloneQueueLimits) -> (result: Result<
        Self,
        CloneAdmissionError,
    >)
        ensures
            limits.valid() <==> result is Ok,
            !limits.valid() ==> result->Err_0 == CloneAdmissionError::InvalidQueueLimits,
            result is Ok ==> result->Ok_0.wf() && result->Ok_0.spec_state().queue.slots@.len() == 0
                && result->Ok_0.spec_state().limits == limits,
    {
        match CloneQueueState::new(limits) {
            Ok(state) => Ok(CloneAdmissionScheduler { admission, state }),
            Err(error) => Err(error),
        }
    }

    /// Validate and queue one clone without starting negotiation or output.
    pub fn enqueue(&mut self, request: CloneAdmissionRequest) -> (result: Result<
        CloneAdmissionTicket,
        CloneAdmissionError,
    >)
        requires
            old(self).wf(),
            request.times_in_range(),
        ensures
            final(self).wf(),
            final(self).spec_exchanges() == old(self).spec_exchanges(),
            match old(self).spec_state().enqueue_fault(request) {
                Some(error) => result == Err::<CloneAdmissionTicket, CloneAdmissionError>(error)
                    && final(self).spec_state() == old(self).spec_state(),
                None => {
                    let before = old(self).spec_state().queue;
                    let after = final(self).spec_state().queue;
                    &&& result is Ok
                    &&& result->Ok_0.value == before.next_ticket
                    &&& after.next_ticket == before.next_ticket + 1
                    &&& after.scope(0) == charged(
                        before.scope(0),
                        tenant_scope(request.identity),
                        request.queued_bytes,
                    )
                    &&& after.scope(1) == charged(
                        before.scope(1),
                        repository_scope(request.identity),
                        request.queued_bytes,
                    )
                    &&& after.cursor == before.cursor
                    &&& after.dispatching@ == before.dispatching@
                    &&& final(self).spec_state().limits == old(self).spec_state().limits
                    &&& final(self).spec_state().last_observed_at
                        == old(self).spec_state().last_observed_at
                    &&& final(self).spec_state().last_credit_at
                        == old(self).spec_state().last_credit_at
                    &&& after.slots@.len() == before.slots@.len() + 1
                    &&& after.slots@.drop_last() == before.slots@
                    &&& after.slots@.last().request == request
                    &&& after.slots@.last().ticket == result->Ok_0.value
                },
            },
    {
        self.state.enqueue(request)
    }

    /// Cancel a queued request, and return whether it waited.
    pub fn cancel(&mut self, ticket: CloneAdmissionTicket) -> (removed: bool)
        requires
            old(self).wf(),
        ensures
            final(self).wf(),
            removed == old(self).spec_state().queue.waits(ticket.value),
            !final(self).spec_state().queue.waits(ticket.value),
            !removed ==> final(self).spec_state() == old(self).spec_state(),
            removed ==> exists|at: int|
                #[trigger] slot_removed(old(self).spec_state(), final(self).spec_state(), at)
                    && old(self).spec_state().queue.slots@[at].ticket == ticket.value,
            final(self).spec_state().same_clock(old(self).spec_state()),
            final(self).spec_state().queue.cursor == old(self).spec_state().queue.cursor,
            final(self).spec_state().queue.dispatching@
                == old(self).spec_state().queue.dispatching@,
            final(self).spec_exchanges() == old(self).spec_exchanges(),
    {
        self.state.cancel(ticket)
    }

    /// Return the number of queued requests.
    pub fn queued(&self) -> (count: usize)
        ensures
            count == self.spec_state().queue.slots@.len(),
    {
        self.state.queued()
    }

    /// Run one fair scheduling round with the caller's time and pressure.
    ///
    /// Credit is given at most once per observation, and waiting lowers the service cost.
    pub fn poll_next<B: CloneQueueWorkBudget>(
        &mut self,
        observed_at: Timestamp,
        pressure: &A::Pressure,
        budget: &mut B,
        cancelled: bool,
    ) -> (result: Result<CloneScheduleDecision<A::Permit>, CloneAdmissionError>)
        requires
            old(self).wf(),
            observed_at.in_range(),
        ensures
            final(self).wf(),
            final(self).spec_state().limits == old(self).spec_state().limits,
            moved_back(old(self).spec_state().last_observed_at, observed_at)
                ==> final(self).spec_state() == old(self).spec_state(),
            cancelled ==> result == Err::<CloneScheduleDecision<A::Permit>, CloneAdmissionError>(
                CloneAdmissionError::Cancelled,
            ) && final(self).spec_state() == old(self).spec_state(),
            !cancelled ==> {
                ||| A::pressure_answers(*pressure, Ok(())) && (moved_back(old(self).spec_state().last_observed_at, observed_at)
                    ==> result == Err::<CloneScheduleDecision<A::Permit>, CloneAdmissionError>(
                    CloneAdmissionError::NonMonotonicTime,
                ))
                ||| result matches Err(CloneAdmissionError::Admission(error)) && A::pressure_answers(
                    *pressure,
                    Err(error),
                ) && final(self).spec_state() == old(self).spec_state()
                    && final(self).spec_exchanges() == old(self).spec_exchanges()
            },
            result is Ok ==> charges_granted::<B>(
                old(self).spec_state(),
                observed_at,
                result is Ok && result->Ok_0 is Rejected,
            ),
            result is Ok ==> poll_follows(
                old(self).spec_state(),
                final(self).spec_state(),
                old(self).spec_exchanges(),
                final(self).spec_exchanges(),
                observed_at,
                result,
            ),
            result matches Err(error) ==> {
                &&& error == CloneAdmissionError::Cancelled <==> cancelled
                &&& error == CloneAdmissionError::NonMonotonicTime ==> moved_back(
                    old(self).spec_state().last_observed_at,
                    observed_at,
                )
                &&& error == CloneAdmissionError::NonMonotonicTime || error
                    == CloneAdmissionError::Cancelled ==> final(self).spec_state()
                    == old(self).spec_state()
                &&& {
                    ||| error == CloneAdmissionError::Cancelled
                    ||| error == CloneAdmissionError::NonMonotonicTime
                    ||| error == CloneAdmissionError::WorkBudget && scan_refused::<B>(
                        old(self).spec_state(),
                        observed_at,
                    ) && short_of(
                        old(budget).allowance(),
                        3 * old(self).spec_state().queue.slots@.len() as int,
                    ) && scan_stopped(
                        old(self).spec_state(),
                        final(self).spec_state(),
                        observed_at,
                    )
                    ||| error is Admission && final(self).spec_state() == old(self).spec_state()
                        && final(self).spec_exchanges() == old(self).spec_exchanges()
                        && A::pressure_answers(*pressure, Err(error->Admission_0))
                    ||| error is Admission && A::pressure_answers(*pressure, Ok(())) && poll_follows(
                        old(self).spec_state(),
                        final(self).spec_state(),
                        old(self).spec_exchanges(),
                        final(self).spec_exchanges(),
                        observed_at,
                        result,
                    )
                }
                &&& !(error is Admission) ==> final(self).spec_exchanges()
                    == old(self).spec_exchanges()
            },
            forall|ticket: u64|
                #![trigger final(self).spec_state().queue.dispatching@.contains(ticket)]
                final(self).spec_state().queue.dispatching@.contains(ticket) == old(self).spec_state().queue.dispatching@.contains(ticket),
            match result {
                Ok(CloneScheduleDecision::Waiting { queued }) => {
                    &&& queued == old(self).spec_state().queue.slots@.len()
                    &&& final(self).spec_state().queue.slots@
                        == old(self).spec_state().queue.slots@
                },
                Ok(CloneScheduleDecision::Granted { ticket, request, .. }) => one_granted(
                    old(self).spec_state().queue.slots@,
                    final(self).spec_state().queue.slots@,
                    ticket.value,
                    request,
                ),
                Ok(CloneScheduleDecision::Rejected { ticket, .. }) => one_left(
                    old(self).spec_state().queue.slots@,
                    final(self).spec_state().queue.slots@,
                    ticket.value,
                ),
                Err(_) => final(self).spec_state().queue.slots@
                    == old(self).spec_state().queue.slots@,
            },
    {
        if cancelled {
            return Err(CloneAdmissionError::Cancelled);
        }
        match self.admission.validate_pressure(pressure) {
            Ok(accepted) => {
                assert(accepted == ());
            },
            Err(error) => {
                return Err(CloneAdmissionError::Admission(error));
            },
        }
        let ghost before = self.state;
        let ghost told = self.admission.exchanges();
        let selection = self.state.select(observed_at, budget)?;
        let ghost chosen = self.state;
        let ghost scanned = selection;
        let (offer, request) = match selection {
            CloneSelection::Waiting { queued } => {
                let result = Ok(CloneScheduleDecision::Waiting { queued });
                assert(round_follows(before, chosen, self.state, observed_at, scanned, result));
                return result;
            },
            CloneSelection::Expired { ticket } => {
                proof {
                    let at = choose|at: int| #[trigger]
                        expires(before, chosen, observed_at, ticket, at);
                    assert(left_at(before.queue.slots@, chosen.queue.slots@, ticket.value, at));
                }
                let result = Ok(
                    CloneScheduleDecision::Rejected {
                        ticket,
                        reason: AdmissionRejectReason::Deadline,
                    },
                );
                assert(round_follows(before, chosen, self.state, observed_at, scanned, result));
                return result;
            },
            CloneSelection::Offer { offer, request } => {
                proof {
                    lemma_offer_is_out(before, chosen, observed_at, offer, request);
                }
                (offer, request)
            },
        };
        let ticket: CloneAdmissionTicket = offer.ticket;
        let ghost offered = request;
        let admission_ticket = match self.admission.submit(request) {
            Ok(admission_ticket) => admission_ticket,
            Err(error) => {
                let _ = self.state.finish_dispatch(&offer, false, true);
                proof {
                    lemma_finish_keeps_slots(before, chosen, self.state, offer, true);
                }
                let result = Err(CloneAdmissionError::Admission(error));
                assert(asked(told, self.admission.exchanges(), offered, observed_at, Err(error)));
                assert(round_follows(before, chosen, self.state, observed_at, scanned, result));
                return result;
            },
        };
        let ghost mut outcome: AdmissionOutcome = AdmissionOutcome::Queued;
        let result = match self.admission.poll(admission_ticket, observed_at, pressure) {
            AdmissionDecision::Granted(permit) => {
                proof {
                    outcome = AdmissionOutcome::Granted;
                }
                let decision = self.state.finish_granted_dispatch(&offer);
                proof {
                    lemma_grant_takes_slot(before, chosen, self.state, offer, decision);
                }
                match decision {
                    GrantFinalization::Accepted(request) => Ok(
                        CloneScheduleDecision::Granted {
                            ticket,
                            request,
                            permit: CloneExecutionPermit::new(permit),
                        },
                    ),
                    GrantFinalization::Deadline => Ok(
                        CloneScheduleDecision::Rejected {
                            ticket,
                            reason: AdmissionRejectReason::Deadline,
                        },
                    ),
                    GrantFinalization::Cancelled => Err(CloneAdmissionError::Cancelled),
                }
            },
            AdmissionDecision::Queued => {
                let withdrawn: bool = self.admission.cancel(admission_ticket);
                let finished: bool = self.state.finish_dispatch(&offer, false, true);
                if !withdrawn {
                    let _ = self.admission.cancel(admission_ticket);
                }
                proof {
                    lemma_finish_keeps_slots(before, chosen, self.state, offer, true);
                }
                if !finished {
                    return Err(CloneAdmissionError::Cancelled);
                }
                Ok(CloneScheduleDecision::Waiting { queued: self.state.queued() })
            },
            AdmissionDecision::Rejected { reason, retry } => {
                proof {
                    outcome = AdmissionOutcome::Rejected { reason, retry };
                }
                let finished: bool = self.state.finish_dispatch(&offer, true, true);
                proof {
                    lemma_finish_takes_slot(before, chosen, self.state, offer);
                }
                if !finished {
                    return Err(CloneAdmissionError::Cancelled);
                }
                Ok(CloneScheduleDecision::Rejected { ticket, reason })
            },
        };
        proof {
            let tells = self.admission.exchanges();
            assert(settled(told, tells, offered, observed_at, admission_ticket, outcome));
            assert(asked(told, tells, offered, observed_at, Ok(outcome)));
        }
        assert(round_follows(before, chosen, self.state, observed_at, scanned, result));
        result
    }
}

/// An offered request waits, and its offer is out.
proof fn lemma_offer_is_out(
    before: CloneQueueState,
    chosen: CloneQueueState,
    observed_at: Timestamp,
    offer: CloneOffer,
    request: AdmissionRequest,
)
    requires
        one_offered(before, chosen, observed_at, offer, request),
    ensures
        offer.wf(),
        offer_out(before, chosen, offer),
{
    let (ready, offset) = choose|ready: FairQueue<CloneAdmissionRequest>, offset: int|
        credit_given(before, ready, observed_at) && #[trigger] offers(
            ready,
            chosen,
            observed_at,
            offer,
            request,
            offset,
        );
    let at = rotated(ready.cursor, offset, ready.slots@.len());
    lemma_rotated(ready.cursor, offset, ready.slots@.len());
    assert(chosen.queue.slots@[at].ticket == offer.ticket.value);
    let old_tickets = before.queue.dispatching@;
    let new_tickets = chosen.queue.dispatching@;
    assert(new_tickets[old_tickets.len() as int] == offer.ticket.value);
    assert forall|other: u64| other != offer.ticket.value implies (#[trigger] new_tickets.contains(
        other,
    ) == old_tickets.contains(other)) by {
        if old_tickets.contains(other) {
            let i = choose|i: int| 0 <= i < old_tickets.len() && old_tickets[i] == other;
            assert(new_tickets[i] == other);
        }
        if new_tickets.contains(other) {
            let i = choose|i: int| 0 <= i < new_tickets.len() && new_tickets[i] == other;
            assert(old_tickets[i] == other);
        }
    }
}

/// The same requests wait, and one more offer is out.
spec fn offer_out(before: CloneQueueState, chosen: CloneQueueState, offer: CloneOffer) -> bool {
    let ticket = offer.ticket.value;
    &&& chosen.queue.slots@ == before.queue.slots@
    &&& chosen.queue.waits(ticket)
    &&& chosen.queue.dispatching@.contains(ticket)
    &&& !before.queue.dispatching@.contains(ticket)
    &&& forall|other: u64|
        other != ticket ==> (#[trigger] chosen.queue.dispatching@.contains(other)
            == before.queue.dispatching@.contains(other))
}

/// Ending an offer without removal leaves the requests and offers as they were before it.
proof fn lemma_finish_keeps_slots(
    before: CloneQueueState,
    chosen: CloneQueueState,
    after: CloneQueueState,
    offer: CloneOffer,
    finished: bool,
)
    requires
        offer_out(before, chosen, offer),
        finish_follows(chosen, after, offer, false, true, finished),
    ensures
        after.queue.slots@ == before.queue.slots@,
        forall|ticket: u64| #[trigger]
            after.queue.dispatching@.contains(ticket) == before.queue.dispatching@.contains(ticket),
{
    let at = choose|at: int| #[trigger] offer_finished(chosen, after, offer, false, true, at);
    assert(offer_finished(chosen, after, offer, false, true, at));
    assert forall|ticket: u64| #[trigger]
        after.queue.dispatching@.contains(ticket) == before.queue.dispatching@.contains(ticket) by {
        if ticket != offer.ticket.value {
            assert(chosen.queue.dispatching@.contains(ticket)
                == before.queue.dispatching@.contains(ticket));
        }
    }
}

/// Ending an offer with removal takes the offered request.
proof fn lemma_finish_takes_slot(
    before: CloneQueueState,
    chosen: CloneQueueState,
    after: CloneQueueState,
    offer: CloneOffer,
)
    requires
        offer_out(before, chosen, offer),
        finish_follows(chosen, after, offer, true, true, true),
    ensures
        one_left(before.queue.slots@, after.queue.slots@, offer.ticket.value),
        forall|ticket: u64| #[trigger]
            after.queue.dispatching@.contains(ticket) == before.queue.dispatching@.contains(ticket),
{
    let at = choose|at: int| #[trigger] offer_finished(chosen, after, offer, true, true, at);
    assert(offer_finished(chosen, after, offer, true, true, at));
    assert(left_at(before.queue.slots@, after.queue.slots@, offer.ticket.value, at));
    assert forall|ticket: u64| #[trigger]
        after.queue.dispatching@.contains(ticket) == before.queue.dispatching@.contains(ticket) by {
        if ticket != offer.ticket.value {
            assert(chosen.queue.dispatching@.contains(ticket)
                == before.queue.dispatching@.contains(ticket));
        }
    }
}

/// A grant takes the offered request.
proof fn lemma_grant_takes_slot(
    before: CloneQueueState,
    chosen: CloneQueueState,
    after: CloneQueueState,
    offer: CloneOffer,
    decision: GrantFinalization,
)
    requires
        offer_out(before, chosen, offer),
        grant_follows(chosen, after, offer, decision),
    ensures
        decision !is Cancelled,
        one_left(before.queue.slots@, after.queue.slots@, offer.ticket.value),
        decision is Accepted ==> one_granted(
            before.queue.slots@,
            after.queue.slots@,
            offer.ticket.value,
            decision->Accepted_0,
        ),
        forall|ticket: u64| #[trigger]
            after.queue.dispatching@.contains(ticket) == before.queue.dispatching@.contains(ticket),
{
    let at = choose|at: int| #[trigger] grant_finished(chosen, after, offer, decision, at);
    assert(grant_finished(chosen, after, offer, decision, at));
    assert(left_at(before.queue.slots@, after.queue.slots@, offer.ticket.value, at));
    assert forall|ticket: u64| #[trigger]
        after.queue.dispatching@.contains(ticket) == before.queue.dispatching@.contains(ticket) by {
        if ticket != offer.ticket.value {
            assert(chosen.queue.dispatching@.contains(ticket)
                == before.queue.dispatching@.contains(ticket));
        }
    }
}

/// Abort a started clone stream, record its outcome, and release its permit.
///
/// The first recorded outcome stays, and an abort of a stream that has ended changes nothing.
pub fn abort_admitted_clone<P, S: PackChunkSink>(
    permit: CloneExecutionPermit<P>,
    sink: &mut S,
    recorder: &mut CloneMetricsRecorder,
    reason: PackAbortReason,
    outcome: CloneOutcome,
) -> (report: CloneMetricsReport)
    ensures
        final(sink).spec_state() == if old(sink).spec_state() is Open {
            PackSinkState::Aborted(reason)
        } else {
            old(sink).spec_state()
        },
        report == final(recorder).spec_report(),
        report == if old(recorder).spec_report().outcome is None {
            (CloneMetricsReport { outcome: Some(outcome), ..old(recorder).spec_report() })
        } else {
            old(recorder).spec_report()
        },
{
    if sink.state() == PackSinkState::Open {
        let _ = sink.abort(reason);
    }
    let report = recorder.finish(outcome);
    permit.release();
    report
}

/// A request that was offered and neither served nor removed pays nothing.
pub proof fn law_unserved_offer_costs_nothing(
    ready: FairQueue<CloneAdmissionRequest>,
    offered: CloneQueueState,
    after: CloneQueueState,
    observed_at: Timestamp,
    offer: CloneOffer,
    request: AdmissionRequest,
    offset: int,
    at: int,
)
    requires
        credit_bounded(ready.scope(0), offered.limits.max_deficit),
        credit_bounded(ready.scope(1), offered.limits.max_deficit),
        offers(ready, offered, observed_at, offer, request, offset),
        offer_finished(offered, after, offer, false, true, at),
    ensures
        after.queue.slots@ == ready.slots@,
        after.queue.scope(0) == ready.scope(0),
        after.queue.scope(1) == ready.scope(1),
{
    let slot = ready.slots@[rotated(ready.cursor, offset, ready.slots@.len())];
    crate::fair_queue::law_refund_undoes_debit(
        ready.scope(0),
        tenant_scope(slot.request.identity),
        offer.cost,
        offered.limits.max_deficit,
    );
    crate::fair_queue::law_refund_undoes_debit(
        ready.scope(1),
        repository_scope(slot.request.identity),
        offer.cost,
        offered.limits.max_deficit,
    );
}

/// Credit is given at most once for one time: after a scan that left requests waiting, every
/// further scan at the same time leaves them waiting, with the credit as it was.
pub proof fn law_credit_is_given_once(
    before: CloneQueueState,
    after: CloneQueueState,
    again: CloneQueueState,
    observed_at: Timestamp,
    queued: usize,
    selection: CloneSelection,
)
    requires
        queued > 0,
        selection_follows(before, after, observed_at, CloneSelection::Waiting { queued }),
        selection_follows(after, again, observed_at, selection),
    ensures
        selection == (CloneSelection::Waiting { queued }),
        again.queue.scope(0) == after.queue.scope(0),
        again.queue.scope(1) == after.queue.scope(1),
        again.queue.same_but_credit(after.queue),
        again.last_credit_at == after.last_credit_at,
        again.last_observed_at == after.last_observed_at,
{
    assert forall|i: int| 0 <= i < after.queue.slots@.len() implies !#[trigger] expired(
        after.queue,
        i,
        observed_at,
    ) by {
        assert(!expired(before.queue, i, observed_at));
    }
    match selection {
        CloneSelection::Waiting { .. } => {},
        CloneSelection::Expired { ticket } => {
            let at = choose|at: int| #[trigger] expires(after, again, observed_at, ticket, at);
            assert(expired(after.queue, at, observed_at));
        },
        CloneSelection::Offer { offer, request } => {
            let (ready, offset) = choose|
                ready: FairQueue<CloneAdmissionRequest>,
                offset: int,
            |
                credit_given(after, ready, observed_at) && #[trigger] offers(
                    ready,
                    again,
                    observed_at,
                    offer,
                    request,
                    offset,
                );
            let at = rotated(ready.cursor, offset, ready.slots@.len());
            lemma_rotated(ready.cursor, offset, ready.slots@.len());
            assert(eligible(ready, at, observed_at, again.limits));
            assert(eligible(after.queue, at, observed_at, before.limits));
        },
    }
}

/// A request that costs more than one share of credit is not offered by the first scan that finds
/// its scopes without credit.
pub proof fn law_costly_request_waits(
    before: CloneQueueState,
    after: CloneQueueState,
    observed_at: Timestamp,
    selection: CloneSelection,
)
    requires
        before.queue.slots@.len() > 0,
        none_expired(before.queue, observed_at),
        forall|i: int|
            0 <= i < before.queue.slots@.len() ==> costly(
                before,
                #[trigger] before.queue.slots@[i],
                observed_at,
            ),
        selection_follows(before, after, observed_at, selection),
    ensures
        selection == (CloneSelection::Waiting { queued: before.queue.slots@.len() as usize }),
{
    match selection {
        CloneSelection::Waiting { .. } => {},
        CloneSelection::Expired { ticket } => {
            let at = choose|at: int| #[trigger] expires(before, after, observed_at, ticket, at);
            assert(expired(before.queue, at, observed_at));
        },
        CloneSelection::Offer { offer, request } => {
            let (ready, offset) = choose|
                ready: FairQueue<CloneAdmissionRequest>,
                offset: int,
            |
                credit_given(before, ready, observed_at) && #[trigger] offers(
                    ready,
                    after,
                    observed_at,
                    offer,
                    request,
                    offset,
                );
            let at = rotated(ready.cursor, offset, ready.slots@.len());
            lemma_rotated(ready.cursor, offset, ready.slots@.len());
            let slot = before.queue.slots@[at];
            let key = tenant_scope(slot.request.identity);
            assert(costly(before, slot, observed_at));
            assert(eligible(ready, at, observed_at, after.limits));
            assert(usage_of(ready.scope(0), key).credit() <= before.limits.fair_quantum);
        },
    }
}

/// A request that costs more than one share of credit is served by no poll at the first time that
/// finds its scopes without credit: every poll at that time leaves it waiting.
pub proof fn law_costly_polls_wait<P>(
    before: CloneQueueState,
    after: CloneQueueState,
    again: CloneQueueState,
    told: Seq<AdmissionExchange>,
    tells: Seq<AdmissionExchange>,
    retells: Seq<AdmissionExchange>,
    observed_at: Timestamp,
    first: Result<CloneScheduleDecision<P>, CloneAdmissionError>,
    second: Result<CloneScheduleDecision<P>, CloneAdmissionError>,
)
    requires
        before.queue.slots@.len() > 0,
        none_expired(before.queue, observed_at),
        forall|i: int|
            0 <= i < before.queue.slots@.len() ==> costly(
                before,
                #[trigger] before.queue.slots@[i],
                observed_at,
            ),
        poll_follows(before, after, told, tells, observed_at, first),
        poll_follows(after, again, tells, retells, observed_at, second),
    ensures
        first matches Ok(CloneScheduleDecision::Waiting { queued }) && queued
            == before.queue.slots@.len(),
        second matches Ok(CloneScheduleDecision::Waiting { queued }) && queued
            == before.queue.slots@.len(),
        retells == told,
{
    let (chosen, selection) = choose|chosen: CloneQueueState, selection: CloneSelection| #[trigger]
        round_follows(before, chosen, after, observed_at, selection, first)
            && controller_heeded(told, tells, observed_at, selection, first);
    law_costly_request_waits(before, chosen, observed_at, selection);
    let (later, reselected) = choose|chosen: CloneQueueState, selection: CloneSelection| #[trigger]
        round_follows(after, chosen, again, observed_at, selection, second)
            && controller_heeded(tells, retells, observed_at, selection, second);
    law_credit_is_given_once(
        before,
        after,
        later,
        observed_at,
        before.queue.slots@.len() as usize,
        reselected,
    );
}

/// The request's tenant has no credit, and the request costs more than one share of it.
pub open spec fn costly(
    state: CloneQueueState,
    slot: QueueSlot<CloneAdmissionRequest>,
    observed_at: Timestamp,
) -> bool {
    &&& usage_of(state.queue.scope(0), tenant_scope(slot.request.identity)).credit() == 0
    &&& cost_now(slot.request, observed_at, state.limits) > state.limits.fair_quantum
}

} // verus!
