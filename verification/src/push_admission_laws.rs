//! What holds of the push queue, told in the terms of its limits and of the pushes that wait.

use crate::admission::{
    overdue, AdmissionIdentity, AdmissionRejectReason, AdmissionRequest, ResourceClass,
};
use crate::clock::Timestamp;
use crate::fair_queue::{
    bytes_in, count_in, lemma_counts, slot_bytes, slot_charges, usage_of, FairQueue, QueueSlot,
};
use crate::push_admission::{
    candidate, cost_now, counters_after_abort, counters_after_outcome, credit_given, eligible,
    expired, expires, mapped_reason, offers, phase_fault, scope_key, selection_follows, slot_sound,
    small, BackendUsage, PushAdmissionCost, PushAdmissionError, PushAdmissionRejectReason,
    PushAdmissionRequest, PushCounters, PushExecutionOutcome, PushExecutionPhase, PushQueueLimits,
    PushQueueState, PushSelection,
};
use crate::push_metrics::ReceivePackLimits;
use vstd::prelude::*;

verus! {

/// A waiting push.
pub type Waiting = QueueSlot<PushAdmissionRequest>;

/// The pushes of one tenant.
pub open spec fn of_tenant(tenant: Seq<char>) -> spec_fn(Waiting) -> bool {
    |slot: Waiting| slot.request.identity.tenant@ == tenant
}

/// The pushes to one repository.
pub open spec fn of_repository(tenant: Seq<char>, repository: Seq<char>) -> spec_fn(
    Waiting,
) -> bool {
    |slot: Waiting|
        slot.request.identity.tenant@ == tenant && slot.request.identity.repository@ == repository
}

/// The pushes of one actor.
pub open spec fn of_actor(tenant: Seq<char>, actor: Seq<char>) -> spec_fn(Waiting) -> bool {
    |slot: Waiting|
        slot.request.identity.tenant@ == tenant && slot.request.identity.actor@ == actor
}

/// What waiting pushes retain together.
pub open spec fn retained(slots: Seq<Waiting>) -> int
    decreases slots.len(),
{
    if slots.len() == 0 {
        0
    } else {
        retained(slots.drop_last()) + slots.last().request.queued_bytes
    }
}

/// The pushes that share a scope of one kind with an identity.
spec fn beside(identity: AdmissionIdentity, kind: int) -> spec_fn(Waiting) -> bool {
    if kind == 0 {
        of_tenant(identity.tenant@)
    } else if kind == 1 {
        of_repository(identity.tenant@, identity.repository@)
    } else {
        of_actor(identity.tenant@, identity.actor@)
    }
}

proof fn lemma_scope_is_counted(
    slots: Seq<Waiting>,
    limits: PushQueueLimits,
    identity: AdmissionIdentity,
    kind: int,
)
    requires
        0 <= kind < 3,
        forall|i: int| 0 <= i < slots.len() ==> slot_sound(#[trigger] slots[i], limits),
    ensures
        count_in(slot_charges(slots, kind), scope_key(identity, kind)) == slots.filter(
            beside(identity, kind),
        ).len(),
        bytes_in(slot_charges(slots, kind), scope_key(identity, kind)) == retained(
            slots.filter(beside(identity, kind)),
        ),
        slot_bytes(slots) == retained(slots),
    decreases slots.len(),
{
    reveal(Seq::filter);
    if slots.len() > 0 {
        let front = slots.drop_last();
        let last = slots.last();
        assert forall|i: int| 0 <= i < front.len() implies slot_sound(
            #[trigger] front[i],
            limits,
        ) by {
            assert(front[i] == slots[i]);
        }
        lemma_scope_is_counted(front, limits, identity, kind);
        assert(slot_charges(slots, kind).drop_last() =~= slot_charges(front, kind));
        assert(slots[slots.len() - 1] == last);
        assert(slot_sound(last, limits));
        assert(last.keys@[kind]@ == scope_key(last.request.identity, kind));
        let kept = front.filter(beside(identity, kind));
        assert(kept.push(last).drop_last() =~= kept);
    }
}

/// After every operation the pushes that wait, those of one tenant, those to one repository and
/// those of one actor keep to their own limits, in number and in bytes.
pub proof fn law_waiting_pushes_keep_their_bounds(state: PushQueueState, identity: AdmissionIdentity)
    requires
        state.wf(),
    ensures
        ({
            let slots = state.queue.slots@;
            let limits = state.limits;
            let tenant = slots.filter(of_tenant(identity.tenant@));
            let repository = slots.filter(
                of_repository(identity.tenant@, identity.repository@),
            );
            let actor = slots.filter(of_actor(identity.tenant@, identity.actor@));
            &&& slots.len() <= limits.max_queued
            &&& retained(slots) <= limits.max_queued_bytes
            &&& tenant.len() <= limits.max_tenant_queued
            &&& retained(tenant) <= limits.max_tenant_queued_bytes
            &&& repository.len() <= limits.max_repository_queued
            &&& retained(repository) <= limits.max_repository_queued_bytes
            &&& actor.len() <= limits.max_actor_queued
            &&& retained(actor) <= limits.max_actor_queued_bytes
        }),
{
    lemma_scope_usage(state, identity, 0);
    lemma_scope_usage(state, identity, 1);
    lemma_scope_usage(state, identity, 2);
    lemma_scope_is_counted(state.queue.slots@, state.limits, identity, 0);
}

/// What a queue records for a scope is what waits there, within the quota.
proof fn lemma_scope_usage(state: PushQueueState, identity: AdmissionIdentity, kind: int)
    requires
        state.wf(),
        0 <= kind < 3,
    ensures
        ({
            let usage = usage_of(state.queue.scope(kind), scope_key(identity, kind));
            let there = state.queue.slots@.filter(beside(identity, kind));
            &&& usage.count == there.len()
            &&& usage.bytes == retained(there)
            &&& usage.count <= state.limits.spec_quota(kind).max_count
            &&& usage.bytes <= state.limits.spec_quota(kind).max_bytes
        }),
{
    let slots = state.queue.slots@;
    let key = scope_key(identity, kind);
    let charges = slot_charges(slots, kind);
    lemma_scope_is_counted(slots, state.limits, identity, kind);
    lemma_counts(charges, key);
    assert(state.queue.scope(kind).dom().contains(key) <==> count_in(charges, key) > 0);
    assert(crate::fair_queue::quota_kept(
        state.queue.scope(kind),
        state.limits.spec_quota(kind),
    ));
}

/// A push that may be queued at all is refused as the queue being full exactly where it would exceed
/// the limits of the whole queue, of its tenant, of its repository or of its actor.
pub proof fn law_full_scopes_refuse(state: PushQueueState, request: PushAdmissionRequest)
    requires
        state.wf(),
        request.fault() is None,
        request.cost.fair_service_units <= state.limits.max_deficit,
        BackendUsage::spec_empty().admits(request.cost, state.limits),
    ensures
        ({
            let slots = state.queue.slots@;
            let limits = state.limits;
            let identity = request.identity;
            let more = request.queued_bytes;
            let tenant = slots.filter(of_tenant(identity.tenant@));
            let repository = slots.filter(
                of_repository(identity.tenant@, identity.repository@),
            );
            let actor = slots.filter(of_actor(identity.tenant@, identity.actor@));
            state.enqueue_fault(request) == Some(PushAdmissionError::QueueFull) <==> {
                ||| slots.len() + 1 > limits.max_queued
                ||| retained(slots) + more > limits.max_queued_bytes
                ||| tenant.len() + 1 > limits.max_tenant_queued
                ||| retained(tenant) + more > limits.max_tenant_queued_bytes
                ||| repository.len() + 1 > limits.max_repository_queued
                ||| retained(repository) + more > limits.max_repository_queued_bytes
                ||| actor.len() + 1 > limits.max_actor_queued
                ||| retained(actor) + more > limits.max_actor_queued_bytes
            }
        }),
{
    let identity = request.identity;
    lemma_scope_usage(state, identity, 0);
    lemma_scope_usage(state, identity, 1);
    lemma_scope_usage(state, identity, 2);
    lemma_scope_is_counted(state.queue.slots@, state.limits, identity, 0);
    let queue = state.queue;
    let bytes = request.queued_bytes;
    let limits = state.limits;
    assert(state.full_for(request) <==> {
        ||| queue.queued_bytes + bytes > limits.max_queued_bytes
        ||| queue.slots@.len() >= limits.max_queued
        ||| !usage_of(queue.scope(0), scope_key(identity, 0)).spec_fits(
            bytes,
            limits.spec_quota(0),
        )
        ||| !usage_of(queue.scope(1), scope_key(identity, 1)).spec_fits(
            bytes,
            limits.spec_quota(1),
        )
        ||| !usage_of(queue.scope(2), scope_key(identity, 2)).spec_fits(
            bytes,
            limits.spec_quota(2),
        )
    }) by {
        if state.full_for(request) && queue.queued_bytes + bytes <= limits.max_queued_bytes
            && queue.slots@.len() < limits.max_queued {
            let kind = choose|kind: int|
                0 <= kind < 3 && !usage_of(
                    #[trigger] queue.scope(kind),
                    scope_key(identity, kind),
                ).spec_fits(bytes, limits.spec_quota(kind));
            assert(kind == 0 || kind == 1 || kind == 2);
        }
    }
}

/// A push that is sound, fits an idle backend and has room in the queue is queued while tickets
/// last; one that is not sound never is.
pub proof fn law_sound_push_with_room_is_queued(
    state: PushQueueState,
    request: PushAdmissionRequest,
)
    requires
        state.wf(),
        state.queue.next_ticket < u64::MAX,
    ensures
        request.fault() is Some ==> state.enqueue_fault(request) == request.fault(),
        request.fault() is None && (request.cost.fair_service_units > state.limits.max_deficit
            || request.cost.workers > state.limits.max_workers || request.cost.range_concurrency
            > state.limits.max_range_concurrency || request.cost.multipart_concurrency
            > state.limits.max_multipart_concurrency || request.cost.quarantine_bytes
            > state.limits.max_quarantine_bytes) ==> state.enqueue_fault(request) == Some(
            PushAdmissionError::InvalidCost,
        ),
        request.fault() is None && request.cost.fair_service_units <= state.limits.max_deficit
            && request.cost.workers <= state.limits.max_workers && request.cost.range_concurrency
            <= state.limits.max_range_concurrency && request.cost.multipart_concurrency
            <= state.limits.max_multipart_concurrency && request.cost.quarantine_bytes
            <= state.limits.max_quarantine_bytes ==> state.enqueue_fault(request) is None
            || state.enqueue_fault(request) == Some(PushAdmissionError::QueueFull),
{
}

/// A cost is valid exactly within the receive-pack limits of the push, with work, units and
/// concurrency above zero and sums that fit.
pub proof fn law_cost_is_valid_within_limits(cost: PushAdmissionCost, limits: ReceivePackLimits)
    ensures
        cost.valid(limits) <==> {
            &&& cost.compressed_bytes <= limits.max_pack_bytes
            &&& cost.inflated_bytes <= limits.max_inflated_bytes
            &&& cost.base_bytes <= limits.max_delta_base_memory_bytes
            &&& cost.metadata_bytes <= limits.max_metadata_memory_bytes
            &&& cost.quarantine_bytes <= limits.max_request_bytes
            &&& cost.external_bytes <= limits.max_request_bytes
            &&& cost.sql_statements <= limits.max_sql_statements
            &&& cost.sql_rows <= limits.max_objects
            &&& cost.external_requests <= limits.max_external_operations
            &&& 1 <= cost.range_concurrency <= limits.max_range_operations
            &&& 1 <= cost.workers <= limits.worker_count
            &&& 1 <= cost.validation_work
            &&& 1 <= cost.multipart_concurrency
            &&& 1 <= cost.fair_service_units
            &&& cost.inflated_bytes + cost.base_bytes + cost.metadata_bytes
                + cost.quarantine_bytes <= u64::MAX
            &&& cost.compressed_bytes + cost.external_bytes <= u64::MAX
            &&& cost.sql_statements + cost.sql_rows <= u64::MAX
        },
{
}

/// The controller is asked for one push slot, for every byte that the push holds in memory or moves,
/// and for its statements, rows, work and outside requests; identity and times are the push's own.
pub proof fn law_controller_is_asked_for_all_of_it(
    request: PushAdmissionRequest,
    submitted: AdmissionRequest,
)
    requires
        request.cost.valid(request.receive_limits),
        request.submits(submitted),
    ensures
        submitted.class == ResourceClass::Push,
        submitted.weights.slots == 1,
        submitted.weights.memory_bytes == request.cost.inflated_bytes + request.cost.base_bytes
            + request.cost.metadata_bytes + request.cost.quarantine_bytes,
        submitted.weights.io_bytes == request.cost.compressed_bytes + request.cost.external_bytes,
        submitted.weights.cpu_units == request.cost.validation_work,
        submitted.weights.sql_units == request.cost.sql_statements + request.cost.sql_rows,
        submitted.weights.s3_units == request.cost.external_requests,
        submitted.identity.tenant@ == request.identity.tenant@,
        submitted.identity.repository@ == request.identity.repository@,
        submitted.identity.actor@ == request.identity.actor@,
        submitted.submitted_at == request.submitted_at,
        submitted.deadline == request.deadline,
        submitted.service_estimate == request.service_estimate,
{
}

/// A request without fault has a deadline behind its submission, near enough and far enough for its
/// service, and retains at least its own record.
pub proof fn law_sound_request_can_be_served(request: PushAdmissionRequest)
    ensures
        request.fault() is None ==> {
            &&& request.submitted_at.unix_nanos < request.deadline.unix_nanos
            &&& request.deadline.unix_nanos - request.submitted_at.unix_nanos
                <= request.receive_limits.max_duration.nanos
            &&& request.submitted_at.unix_nanos + request.service_estimate.nanos
                <= request.deadline.unix_nanos
            &&& 1 <= request.service_estimate.nanos <= request.receive_limits.max_duration.nanos
            &&& request.cost.valid(request.receive_limits)
            &&& request.receive_limits.fault() is None
            &&& request.queued_bytes >= crate::push_admission::record_bytes(request.identity)
            &&& crate::admission::actor_fits(request.identity.actor@)
            &&& !overdue(request.submitted_at, request.service_estimate, request.deadline)
        },
        request.receive_limits.fault() is None && request.cost.valid(request.receive_limits)
            && crate::admission::actor_fits(request.identity.actor@) && request.queued_bytes
            >= crate::push_admission::record_bytes(request.identity) && 1
            <= request.service_estimate.nanos <= request.receive_limits.max_duration.nanos
            && request.submitted_at.unix_nanos < request.deadline.unix_nanos
            && request.deadline.unix_nanos - request.submitted_at.unix_nanos
            <= request.receive_limits.max_duration.nanos && request.submitted_at.unix_nanos
            + request.service_estimate.nanos <= request.deadline.unix_nanos
            ==> request.fault() is None,
        request.receive_limits.fault() is None && !request.cost.valid(request.receive_limits)
            ==> request.fault() == Some(PushAdmissionError::InvalidCost),
{
}

/// Limits that may be used are nested, from the actor's up to the whole queue's, and leave an actor
/// room for no more than a part of its repository.
pub proof fn law_usable_limits_are_nested(limits: PushQueueLimits)
    ensures
        limits.valid() <==> {
            &&& 1 <= limits.max_actor_queued
            &&& limits.max_actor_queued < limits.max_repository_queued
            &&& limits.max_repository_queued <= limits.max_tenant_queued
            &&& limits.max_tenant_queued <= limits.max_queued
            &&& 1 <= limits.max_actor_queued_bytes
            &&& limits.max_actor_queued_bytes < limits.max_repository_queued_bytes
            &&& limits.max_repository_queued_bytes <= limits.max_tenant_queued_bytes
            &&& limits.max_tenant_queued_bytes <= limits.max_queued_bytes
            &&& 1 <= limits.fair_quantum <= limits.max_deficit
            &&& 1 <= limits.small_push_units <= limits.max_deficit
            &&& 1 <= limits.aging_interval.nanos
            &&& 1 <= limits.max_small_bypass
            &&& 1 <= limits.max_workers
            &&& 1 <= limits.max_range_concurrency
            &&& 1 <= limits.max_multipart_concurrency
            &&& 1 <= limits.max_quarantine_bytes
        },
{
}

/// A push has room exactly where each of its demands fits beside what is in use; what is then in use
/// is the sum, and giving it back leaves the difference.
pub proof fn law_capacity_adds_up(
    usage: BackendUsage,
    cost: PushAdmissionCost,
    limits: PushQueueLimits,
)
    ensures
        usage.admits(cost, limits) <==> {
            &&& usage.workers + cost.workers <= limits.max_workers
            &&& usage.ranges + cost.range_concurrency <= limits.max_range_concurrency
            &&& usage.multipart + cost.multipart_concurrency <= limits.max_multipart_concurrency
            &&& usage.quarantine_bytes + cost.quarantine_bytes <= limits.max_quarantine_bytes
        },
        usage.spec_add(cost) matches Some(after) ==> {
            &&& after.workers == usage.workers + cost.workers
            &&& after.ranges == usage.ranges + cost.range_concurrency
            &&& after.multipart == usage.multipart + cost.multipart_concurrency
            &&& after.quarantine_bytes == usage.quarantine_bytes + cost.quarantine_bytes
        },
        usage.spec_sub(cost) matches Some(after) ==> {
            &&& usage.workers == after.workers + cost.workers
            &&& usage.ranges == after.ranges + cost.range_concurrency
            &&& usage.multipart == after.multipart + cost.multipart_concurrency
            &&& usage.quarantine_bytes == after.quarantine_bytes + cost.quarantine_bytes
        },
{
}

/// What is in use never exceeds the capacity.
pub proof fn law_capacity_is_never_exceeded(state: PushQueueState)
    requires
        state.wf(),
    ensures
        state.backend.workers <= state.limits.max_workers,
        state.backend.ranges <= state.limits.max_range_concurrency,
        state.backend.multipart <= state.limits.max_multipart_concurrency,
        state.backend.quarantine_bytes <= state.limits.max_quarantine_bytes,
{
}

/// A push that can be served now: submitted, in time, within the capacity, and with the credit of
/// its tenant, repository and actor.
pub open spec fn servable(
    queue: FairQueue<PushAdmissionRequest>,
    backend: BackendUsage,
    at: int,
    now: Timestamp,
    limits: PushQueueLimits,
) -> bool {
    let slot = queue.slots@[at];
    let request = slot.request;
    let units = cost_now(request, now, limits);
    let tenant = (request.identity.tenant@, Seq::<char>::empty());
    let repository = (request.identity.tenant@, request.identity.repository@);
    let actor = (request.identity.tenant@, request.identity.actor@);
    &&& !queue.dispatching@.contains(slot.ticket)
    &&& request.submitted_at.unix_nanos <= now.unix_nanos
    &&& now.unix_nanos < request.deadline.unix_nanos
    &&& now.unix_nanos + request.service_estimate.nanos <= request.deadline.unix_nanos
    &&& backend.workers + request.cost.workers <= limits.max_workers
    &&& backend.ranges + request.cost.range_concurrency <= limits.max_range_concurrency
    &&& backend.multipart + request.cost.multipart_concurrency
        <= limits.max_multipart_concurrency
    &&& backend.quarantine_bytes + request.cost.quarantine_bytes <= limits.max_quarantine_bytes
    &&& units <= usage_of(queue.scope(0), tenant).credit()
    &&& units <= usage_of(queue.scope(1), repository).credit()
    &&& units <= usage_of(queue.scope(2), actor).credit()
}

proof fn lemma_eligible_is_servable(
    queue: FairQueue<PushAdmissionRequest>,
    backend: BackendUsage,
    at: int,
    now: Timestamp,
    limits: PushQueueLimits,
)
    ensures
        eligible(queue, backend, at, now, limits) == servable(queue, backend, at, now, limits),
{
    let identity = queue.slots@[at].request.identity;
    let units = cost_now(queue.slots@[at].request, now, limits);
    assert(crate::push_admission::credit_covers(queue, identity, units) <==> {
        &&& units <= usage_of(queue.scope(0), scope_key(identity, 0)).credit()
        &&& units <= usage_of(queue.scope(1), scope_key(identity, 1)).credit()
        &&& units <= usage_of(queue.scope(2), scope_key(identity, 2)).credit()
    });
}

/// A scan leaves every push waiting only where none can be served now, but for small ones that must
/// let a large one pass; it offers only one that can.
pub proof fn law_scan_serves_what_it_can(
    before: PushQueueState,
    after: PushQueueState,
    logical_round: u64,
    now: Timestamp,
    selection: PushSelection,
)
    requires
        selection_follows(before, after, logical_round, now, selection),
    ensures
        selection is Waiting ==> forall|i: int|
            0 <= i < after.queue.slots@.len() && #[trigger] servable(
                after.queue,
                after.backend,
                i,
                now,
                after.limits,
            ) ==> before.consecutive_small >= before.limits.max_small_bypass
                && after.queue.slots@[i].request.cost.fair_service_units
                <= before.limits.small_push_units,
        selection matches PushSelection::Offer { offer, .. } ==> exists|
            ready: FairQueue<PushAdmissionRequest>,
            at: int,
        |
            0 <= at < before.queue.slots@.len() && before.queue.slots@[at].ticket
                == offer.ticket.value && ready.slots@ == before.queue.slots@ && #[trigger] servable(
                ready,
                before.backend,
                at,
                now,
                before.limits,
            ),
{
    match selection {
        PushSelection::Waiting { queued } => {
            assert forall|i: int|
                0 <= i < after.queue.slots@.len() && #[trigger] servable(
                    after.queue,
                    after.backend,
                    i,
                    now,
                    after.limits,
                ) implies before.consecutive_small >= before.limits.max_small_bypass
                && after.queue.slots@[i].request.cost.fair_service_units
                <= before.limits.small_push_units by {
                lemma_eligible_is_servable(after.queue, before.backend, i, now, before.limits);
                let forced = crate::push_admission::must_serve_large(before, after.queue, now);
                assert(!candidate(after.queue, before.backend, i, now, before.limits, forced));
            }
        },
        PushSelection::Offer { offer, request } => {
            let (ready, offset) = choose|ready: FairQueue<PushAdmissionRequest>, offset: int|
                credit_given(before, ready, logical_round) && #[trigger] offers(
                    before,
                    ready,
                    after,
                    now,
                    offer,
                    request,
                    offset,
                );
            let at = crate::fair_queue::rotated(ready.cursor, offset, ready.slots@.len());
            crate::fair_queue::lemma_rotated(ready.cursor, offset, ready.slots@.len());
            lemma_eligible_is_servable(ready, before.backend, at, now, before.limits);
        },
        _ => {},
    }
}

/// A scan removes a push only where it could not finish before its deadline any more, and no push
/// that arrived earlier is in that state; it goes on only where no push is.
pub proof fn law_late_pushes_leave_first(
    before: PushQueueState,
    after: PushQueueState,
    logical_round: u64,
    now: Timestamp,
    selection: PushSelection,
    i: int,
)
    requires
        selection_follows(before, after, logical_round, now, selection),
        0 <= i < before.queue.slots@.len(),
        !before.queue.dispatching@.contains(before.queue.slots@[i].ticket),
    ensures
        ({
            let request = before.queue.slots@[i].request;
            let late = now.unix_nanos >= request.deadline.unix_nanos || now.unix_nanos
                + request.service_estimate.nanos > request.deadline.unix_nanos;
            &&& late ==> selection is Expired
            &&& selection matches PushSelection::Expired { ticket } ==> exists|at: int|
                0 <= at < before.queue.slots@.len() && (#[trigger] before.queue.slots@[at]).ticket
                    == ticket.value && after.queue.slots@ == before.queue.slots@.remove(at) && (late
                    ==> at <= i) && (at == i ==> late)
        }),
{
    match selection {
        PushSelection::Expired { ticket } => {
            let at = choose|at: int| #[trigger] expires(before, after, now, ticket, at);
            assert(before.queue.slots@[at].ticket == ticket.value);
            if i < at {
                assert(!expired(before.queue, i, now));
            }
        },
        PushSelection::Waiting { .. } => {
            assert(!expired(before.queue, i, now));
        },
        PushSelection::Offer { .. } => {
            assert(!expired(before.queue, i, now));
        },
    }
}

/// Each logical round gives every waiting scope one quantum, up to the maximum, and no round gives
/// it twice.
pub proof fn law_rounds_give_one_quantum(
    before: PushQueueState,
    after: FairQueue<PushAdmissionRequest>,
    logical_round: u64,
    kind: int,
    key: (Seq<char>, Seq<char>),
)
    requires
        credit_given(before, after, logical_round),
        0 <= kind < 3,
        before.queue.scope(kind).dom().contains(key),
    ensures
        ({
            let old_credit = usage_of(before.queue.scope(kind), key).credit();
            let new_credit = usage_of(after.scope(kind), key).credit();
            let full = old_credit + before.limits.fair_quantum;
            new_credit == if logical_round <= before.last_round {
                old_credit as int
            } else if full <= before.limits.max_deficit {
                full
            } else {
                before.limits.max_deficit as int
            }
        }),
{
    assert(after.scope(kind) == after.scope(kind));
}

/// A waiting push gets cheaper by the aging credit with every full interval, down to one unit.
pub proof fn law_waiting_makes_cheaper(
    request: PushAdmissionRequest,
    limits: PushQueueLimits,
    now: Timestamp,
    intervals: nat,
)
    requires
        limits.aging_interval.nanos > 0,
        request.cost.fair_service_units >= 1,
        now.unix_nanos - request.submitted_at.unix_nanos >= intervals
            * limits.aging_interval.nanos,
        now.unix_nanos - request.submitted_at.unix_nanos < (intervals + 1)
            * limits.aging_interval.nanos,
    ensures
        ({
            let left = request.cost.fair_service_units - intervals * limits.aging_credit_units;
            cost_now(request, now, limits) == if left >= 1 {
                left
            } else {
                1
            }
        }),
{
    let waited = now.unix_nanos - request.submitted_at.unix_nanos;
    let interval = limits.aging_interval.nanos as int;
    assert(waited >= 0) by (nonlinear_arith)
        requires
            waited >= intervals * interval,
            interval > 0,
    ;
    assert((intervals + 1) * interval == intervals * interval + interval) by (nonlinear_arith);
    assert(waited / interval == intervals) by {
        vstd::arithmetic::div_mod::lemma_fundamental_div_mod_converse(
            waited,
            interval,
            intervals as int,
            waited - intervals * interval,
        );
    }
    assert(intervals * limits.aging_credit_units >= 0) by (nonlinear_arith)
        requires
            limits.aging_credit_units >= 0,
    ;
}

/// An offered push is granted exactly where it can still finish and its demands fit beside what is in
/// use; it then leaves the queue, and what is in use grows by its demands.
pub proof fn law_grants_take_capacity(
    before: PushQueueState,
    after: PushQueueState,
    offer: crate::push_admission::PushOffer,
    grant: crate::push_admission::PushGrant,
    at: int,
    now: Timestamp,
)
    requires
        crate::push_admission::grant_finished(before, after, offer, grant, at),
        before.last_observed_at == Some(now),
        before.active < usize::MAX,
    ensures
        ({
            let request = before.queue.slots@[at].request;
            let late = now.unix_nanos >= request.deadline.unix_nanos || now.unix_nanos
                + request.service_estimate.nanos > request.deadline.unix_nanos;
            let room = {
                &&& before.backend.workers + request.cost.workers <= before.limits.max_workers
                &&& before.backend.ranges + request.cost.range_concurrency
                    <= before.limits.max_range_concurrency
                &&& before.backend.multipart + request.cost.multipart_concurrency
                    <= before.limits.max_multipart_concurrency
                &&& before.backend.quarantine_bytes + request.cost.quarantine_bytes
                    <= before.limits.max_quarantine_bytes
            };
            &&& before.queue.slots@[at].ticket == offer.ticket.value
            &&& grant is Deadline <==> late
            &&& grant is Waiting <==> !late && !room
            &&& grant is Accepted <==> !late && room
            &&& grant is Waiting <==> after.queue.slots@ == before.queue.slots@
            &&& !(grant is Waiting) ==> after.queue.slots@ == before.queue.slots@.remove(at)
            &&& grant is Accepted ==> {
                &&& after.backend.workers == before.backend.workers + request.cost.workers
                &&& after.backend.ranges == before.backend.ranges
                    + request.cost.range_concurrency
                &&& after.backend.multipart == before.backend.multipart
                    + request.cost.multipart_concurrency
                &&& after.backend.quarantine_bytes == before.backend.quarantine_bytes
                    + request.cost.quarantine_bytes
                &&& after.active == before.active + 1
            }
            &&& !(grant is Accepted) ==> after.backend == before.backend && after.active
                == before.active
        }),
{
    let slots = before.queue.slots@;
    assert(slots.remove(at).len() == slots.len() - 1);
}

/// A push that was offered and goes on waiting is the last one that the next scan looks at.
pub proof fn law_offered_push_goes_to_the_back(
    before: PushQueueState,
    after: PushQueueState,
    offer: crate::push_admission::PushOffer,
    refund: bool,
    at: int,
)
    requires
        crate::push_admission::offer_finished(before, after, offer, false, refund, at),
    ensures
        crate::fair_queue::rotated(
            after.queue.cursor,
            after.queue.slots@.len() - 1,
            after.queue.slots@.len(),
        ) == at,
{
    let len = after.queue.slots@.len() as int;
    let cursor = after.queue.cursor as int;
    assert(cursor == (at + 1) % len);
    if at + 1 == len {
        assert((at + 1) % len == 0) by {
            vstd::arithmetic::div_mod::lemma_mod_self_0(len);
        }
        vstd::arithmetic::div_mod::lemma_small_mod((len - 1) as nat, len as nat);
    } else {
        vstd::arithmetic::div_mod::lemma_small_mod((at + 1) as nat, len as nat);
        assert(cursor + (len - 1) == len + at);
        vstd::arithmetic::div_mod::lemma_mod_add_multiples_vanish(at, len);
        vstd::arithmetic::div_mod::lemma_small_mod(at as nat, len as nat);
    }
}

/// A push is granted only where the controller granted it, and is then the one with its ticket that
/// waited, which has left; one that is rejected was waiting and has left too; and where the round
/// leaves things as they are, every push still waits.
pub proof fn law_rounds_end_as_answered<P>(
    before: PushQueueState,
    after: PushQueueState,
    told: Seq<crate::admission::AdmissionExchange>,
    tells: Seq<crate::admission::AdmissionExchange>,
    logical_round: u64,
    now: Timestamp,
    result: Result<crate::push_admission::PushScheduleDecision<P>, PushAdmissionError>,
)
    requires
        before.wf(),
        crate::push_admission::poll_follows(
            before,
            after,
            told,
            tells,
            logical_round,
            now,
            result,
        ),
    ensures
        match result {
            Ok(crate::push_admission::PushScheduleDecision::Granted { ticket, request, .. }) => {
                &&& exists|at: int|
                    0 <= at < before.queue.slots@.len() && (
                    #[trigger] before.queue.slots@[at]).ticket == ticket.value
                        && before.queue.slots@[at].request == request && after.queue.slots@
                        == before.queue.slots@.remove(at)
                &&& exists|asked_for: AdmissionRequest| #[trigger]
                    crate::admission::asked(
                        told,
                        tells,
                        asked_for,
                        now,
                        Ok(crate::admission::AdmissionOutcome::Granted),
                    )
            },
            Ok(crate::push_admission::PushScheduleDecision::Rejected { ticket, .. }) => exists|
                at: int,
            |
                0 <= at < before.queue.slots@.len() && (#[trigger] before.queue.slots@[at]).ticket
                    == ticket.value && after.queue.slots@ == before.queue.slots@.remove(at),
            Ok(crate::push_admission::PushScheduleDecision::Waiting { queued }) =>
                after.queue.slots@ == before.queue.slots@ && queued == before.queue.slots@.len(),
            Err(_) => after.queue.slots@ == before.queue.slots@,
        },
{
    let (chosen, selection) = choose|chosen: PushQueueState, selection: PushSelection| #[trigger]
        crate::push_admission::round_follows(
            before,
            chosen,
            after,
            logical_round,
            now,
            selection,
            result,
        ) && crate::push_admission::controller_heeded(told, tells, now, selection, result);
    match selection {
        PushSelection::Waiting { .. } => {},
        PushSelection::Expired { ticket } => {
            let at = choose|at: int| #[trigger] expires(before, chosen, now, ticket, at);
            assert(before.queue.slots@[at].ticket == ticket.value);
        },
        PushSelection::Offer { offer, request } => {
            let (ready, offset) = choose|ready: FairQueue<PushAdmissionRequest>, offset: int|
                credit_given(before, ready, logical_round) && #[trigger] offers(
                    before,
                    ready,
                    chosen,
                    now,
                    offer,
                    request,
                    offset,
                );
            let place = crate::fair_queue::rotated(ready.cursor, offset, ready.slots@.len());
            crate::fair_queue::lemma_rotated(ready.cursor, offset, ready.slots@.len());
            let ticket = offer.ticket.value;
            assert(chosen.queue.slots@ == before.queue.slots@);
            assert(chosen.queue.slots@[place].ticket == ticket);
            assert(chosen.queue.waits(ticket));
            assert(chosen.queue.dispatching@[ready.dispatching@.len() as int] == ticket);
            assert(chosen.queue.dispatching@.contains(ticket));
            match result {
                Ok(crate::push_admission::PushScheduleDecision::Granted { request: granted, .. }) => {
                    let grant = crate::push_admission::PushGrant::Accepted {
                        request: granted,
                        observed_at: crate::push_admission::grant_time(
                            chosen.last_observed_at,
                            granted,
                        ),
                    };
                    let at = choose|at: int| #[trigger]
                        crate::push_admission::grant_finished(chosen, after, offer, grant, at);
                    assert(before.queue.slots@[at].ticket == ticket);
                    let answer = choose|
                        answer: Result<
                            crate::admission::AdmissionOutcome,
                            crate::admission::AdmissionConfigError,
                        >,
                    | #[trigger]
                        crate::admission::asked(told, tells, request, now, answer)
                            && crate::push_admission::answer_heeded(answer, result) && (
                        result matches Ok(
                            crate::push_admission::PushScheduleDecision::Granted { .. },
                        ) ==> answer matches Ok(crate::admission::AdmissionOutcome::Granted));
                    assert(crate::admission::asked(
                        told,
                        tells,
                        request,
                        now,
                        Ok(crate::admission::AdmissionOutcome::Granted),
                    ));
                },
                Ok(crate::push_admission::PushScheduleDecision::Rejected { .. }) => {
                    if crate::push_admission::finish_follows(
                        chosen,
                        after,
                        offer,
                        true,
                        true,
                        true,
                    ) {
                        let at = choose|at: int| #[trigger]
                            crate::push_admission::offer_finished(
                                chosen,
                                after,
                                offer,
                                true,
                                true,
                                at,
                            );
                        assert(before.queue.slots@[at].ticket == ticket);
                    } else {
                        let at = choose|at: int| #[trigger]
                            crate::push_admission::grant_finished(
                                chosen,
                                after,
                                offer,
                                crate::push_admission::PushGrant::Deadline,
                                at,
                            );
                        assert(before.queue.slots@[at].ticket == ticket);
                    }
                },
                Ok(crate::push_admission::PushScheduleDecision::Waiting { .. }) => {
                    if !crate::push_admission::finish_follows(
                        chosen,
                        after,
                        offer,
                        false,
                        true,
                        true,
                    ) {
                        let at = choose|at: int| #[trigger]
                            crate::push_admission::grant_finished(
                                chosen,
                                after,
                                offer,
                                crate::push_admission::PushGrant::Waiting,
                                at,
                            );
                        assert(before.queue.slots@[at].ticket == ticket);
                    }
                },
                _ => {},
            }
        },
    }
}

/// Phases are entered one after the other; before publication is durable only in time, uncancelled
/// and under the permit's own deadline, and after that always.
pub proof fn law_phases_are_entered_in_order(
    phase: PushExecutionPhase,
    next: PushExecutionPhase,
    permit_deadline: Timestamp,
    last_observed_at: Timestamp,
    observed_at: Timestamp,
    deadline: Timestamp,
    cancelled: bool,
)
    ensures
        ({
            let fault = phase_fault(
                phase,
                next,
                permit_deadline,
                last_observed_at,
                observed_at,
                deadline,
                cancelled,
            );
            let follows = match phase {
                PushExecutionPhase::Admitted => next == PushExecutionPhase::Input,
                PushExecutionPhase::Input => next == PushExecutionPhase::Quarantine,
                PushExecutionPhase::Quarantine => next == PushExecutionPhase::Validation,
                PushExecutionPhase::Validation => next == PushExecutionPhase::Promotion,
                PushExecutionPhase::Promotion => next == PushExecutionPhase::Publication,
                PushExecutionPhase::Publication => next == PushExecutionPhase::Published,
                PushExecutionPhase::Published => next == PushExecutionPhase::OutputStarted,
                PushExecutionPhase::OutputStarted => false,
            };
            let durable = next == PushExecutionPhase::Published || next
                == PushExecutionPhase::OutputStarted;
            let timely = deadline == permit_deadline && last_observed_at.unix_nanos
                <= observed_at.unix_nanos;
            &&& fault == Some(PushAdmissionError::InvalidPhase) <==> !follows
            &&& fault is None <==> follows && (durable || timely && !cancelled
                && observed_at.unix_nanos < permit_deadline.unix_nanos)
            &&& fault == Some(PushAdmissionError::Cancelled) ==> cancelled && !durable
            &&& follows && !durable && timely && cancelled ==> fault == Some(
                PushAdmissionError::Cancelled,
            )
            &&& follows && !durable && timely && !cancelled && observed_at.unix_nanos
                >= permit_deadline.unix_nanos ==> fault == Some(PushAdmissionError::Deadline)
        }),
{
}

/// Every end of an execution is counted once as completed, and as rejected or failed where that is
/// how it ended; an abort is counted as one.
pub proof fn law_ends_are_counted_once(counters: PushCounters, recorded: bool)
    requires
        counters.completed < u64::MAX,
        counters.rejected_terminal < u64::MAX,
        counters.backend_failures < u64::MAX,
        counters.aborted < u64::MAX,
    ensures
        counters_after_outcome(counters, PushExecutionOutcome::Published) == (PushCounters {
            completed: (counters.completed + 1) as u64,
            ..counters
        }),
        counters_after_outcome(counters, PushExecutionOutcome::Rejected) == (PushCounters {
            completed: (counters.completed + 1) as u64,
            rejected_terminal: (counters.rejected_terminal + 1) as u64,
            ..counters
        }),
        counters_after_outcome(counters, PushExecutionOutcome::BackendFailure) == (PushCounters {
            completed: (counters.completed + 1) as u64,
            backend_failures: (counters.backend_failures + 1) as u64,
            ..counters
        }),
        counters_after_abort(counters, recorded).aborted == counters.aborted + 1,
        counters_after_abort(counters, recorded).completed == counters.completed + if recorded {
            1int
        } else {
            0
        },
        counters_after_abort(counters, recorded).published == counters.published,
{
}

/// A controller's reason keeps its sense: late stays late and out of memory stays so, and only
/// overload or a lost ticket is told as shed load.
pub proof fn law_reasons_keep_their_sense(reason: AdmissionRejectReason)
    ensures
        mapped_reason(reason) == PushAdmissionRejectReason::Deadline <==> reason
            == AdmissionRejectReason::Deadline,
        mapped_reason(reason) == PushAdmissionRejectReason::Allocation <==> reason
            == AdmissionRejectReason::AllocationPressure,
        mapped_reason(reason) == PushAdmissionRejectReason::LoadShed <==> reason
            == AdmissionRejectReason::BackendOverloaded || reason
            == AdmissionRejectReason::UnknownTicket,
{
}

} // verus!
