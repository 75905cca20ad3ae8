//! What holds of every step of a waiting queue: of a request that leaves it, of an offer that ends,
//! and of capacity that is given back.

use crate::admission::AdmissionIdentity;
use crate::clock::Timestamp;
use crate::clone_admission::{
    CloneAdmissionRequest, CloneOffer, CloneQueueLimits, CloneQueueState, GrantFinalization,
};
use crate::fair_queue::{usage_of, FairQueue, QueueSlot, ScopeKey};
use crate::push_admission::{
    bumped, candidate, cancelled_at, credit_covers, eligible, keys_of, large_waits,
    must_serve_large, observation_moved_back, one_cancelled, released, round_after, run_kept,
    scope_key, small, small_run_after, too_late, PushAdmissionCost, PushAdmissionRequest,
    PushAdmissionTicket, PushExecutionPhase, PushGrant, PushOffer, PushQueueState,
};
use vstd::prelude::*;

verus! {

/// An offered clone pays from its tenant's scope and from its repository's, and from no other.
pub proof fn law_offered_clone_pays_from_its_scopes(offer: CloneOffer, identity: AdmissionIdentity)
    ensures
        offer.paid_by(identity) <==> (offer.keys@.len() == 2 && offer.keys@[0].tenant@
            == identity.tenant@ && offer.keys@[0].part@.len() == 0 && offer.keys@[1].tenant@
            == identity.tenant@ && offer.keys@[1].part@ == identity.repository@),
{
    if offer.keys@.len() == 2 && offer.keys@[0].tenant@ == identity.tenant@
        && offer.keys@[0].part@.len() == 0 {
        assert(offer.keys@[0].part@ =~= Seq::<char>::empty());
    }
}

/// A push has three scopes: its tenant's, its repository's and its actor's.
pub proof fn law_push_has_three_scopes(keys: Seq<ScopeKey>, identity: AdmissionIdentity)
    ensures
        keys_of(keys, identity) <==> (keys.len() == 3 && keys[0].tenant@ == identity.tenant@
            && keys[0].part@.len() == 0 && keys[1].tenant@ == identity.tenant@ && keys[1].part@
            == identity.repository@ && keys[2].tenant@ == identity.tenant@ && keys[2].part@
            == identity.actor@),
{
    if keys_of(keys, identity) {
        assert(keys[0]@ == scope_key(identity, 0));
        assert(keys[1]@ == scope_key(identity, 1));
        assert(keys[2]@ == scope_key(identity, 2));
    }
    if keys.len() == 3 && keys[0].part@.len() == 0 {
        assert(keys[0].part@ =~= Seq::<char>::empty());
    }
}

/// A push has the credit for its units exactly where each of its three scopes has.
pub proof fn law_every_scope_covers_the_push(
    queue: FairQueue<PushAdmissionRequest>,
    identity: AdmissionIdentity,
    units: u64,
)
    ensures
        credit_covers(queue, identity, units) <==> (units <= usage_of(
            queue.scope(0),
            (identity.tenant@, Seq::empty()),
        ).credit() && units <= usage_of(
            queue.scope(1),
            (identity.tenant@, identity.repository@),
        ).credit() && units <= usage_of(queue.scope(2), (identity.tenant@, identity.actor@)).credit(

        )),
{
    if credit_covers(queue, identity, units) {
        assert(units <= usage_of(queue.scope(0), scope_key(identity, 0)).credit());
        assert(units <= usage_of(queue.scope(1), scope_key(identity, 1)).credit());
        assert(units <= usage_of(queue.scope(2), scope_key(identity, 2)).credit());
    }
}

/// A clone that leaves takes its bytes from what waits and its place from its two scopes, and no
/// other clone moves.
pub proof fn law_leaving_clone_takes_its_bytes(
    before: CloneQueueState,
    after: CloneQueueState,
    at: int,
    i: int,
)
    requires
        crate::clone_admission::slot_removed(before, after, at),
    ensures
        0 <= at < before.queue.slots@.len(),
        after.queue.slots@.len() + 1 == before.queue.slots@.len(),
        0 <= i < at ==> after.queue.slots@[i] == before.queue.slots@[i],
        at <= i < after.queue.slots@.len() ==> after.queue.slots@[i] == before.queue.slots@[i + 1],
        after.queue.queued_bytes + before.queue.slots@[at].bytes == before.queue.queued_bytes,
        after.queue.next_ticket == before.queue.next_ticket,
{
}

/// A push that leaves takes its bytes from what waits and its place from its three scopes, and no
/// other push moves.
pub proof fn law_leaving_push_takes_its_bytes(
    before: PushQueueState,
    after: PushQueueState,
    at: int,
    i: int,
)
    requires
        crate::push_admission::slot_removed(before, after, at),
    ensures
        0 <= at < before.queue.slots@.len(),
        after.queue.slots@.len() + 1 == before.queue.slots@.len(),
        0 <= i < at ==> after.queue.slots@[i] == before.queue.slots@[i],
        at <= i < after.queue.slots@.len() ==> after.queue.slots@[i] == before.queue.slots@[i + 1],
        after.queue.queued_bytes + before.queue.slots@[at].bytes == before.queue.queued_bytes,
        after.queue.next_ticket == before.queue.next_ticket,
{
}

/// A clone is late only while nobody offers it, and where its deadline comes before it could be
/// served.
pub proof fn law_late_clones_are_not_being_offered(
    queue: FairQueue<CloneAdmissionRequest>,
    at: int,
    observed_at: Timestamp,
)
    ensures
        crate::clone_admission::expired(queue, at, observed_at) <==> (
        !queue.dispatching@.contains(queue.slots@[at].ticket) && (observed_at.unix_nanos
            >= queue.slots@[at].request.deadline.unix_nanos || observed_at.unix_nanos
            + queue.slots@[at].request.service_estimate.nanos
            > queue.slots@[at].request.deadline.unix_nanos)),
{
}

/// A push is late only while nobody offers it, and where its deadline comes before it could be
/// served.
pub proof fn law_late_pushes_are_not_being_offered(
    queue: FairQueue<PushAdmissionRequest>,
    at: int,
    observed_at: Timestamp,
)
    ensures
        crate::push_admission::expired(queue, at, observed_at) <==> (
        !queue.dispatching@.contains(queue.slots@[at].ticket) && (observed_at.unix_nanos
            >= queue.slots@[at].request.deadline.unix_nanos || observed_at.unix_nanos
            + queue.slots@[at].request.service_estimate.nanos
            > queue.slots@[at].request.deadline.unix_nanos)),
{
}

/// An offer of a clone that is not out changes nothing and is not finished. One whose clone has left
/// gives its units back and is not finished. Any other is finished: it is out no more, every other
/// offer is as before, and the clone stays or leaves as asked.
pub proof fn law_ended_clone_offers_leave_no_trace(
    before: CloneQueueState,
    after: CloneQueueState,
    offer: CloneOffer,
    remove: bool,
    refund: bool,
    finished: bool,
)
    requires
        crate::clone_admission::finish_follows(before, after, offer, remove, refund, finished),
    ensures
        !before.queue.dispatching@.contains(offer.ticket.value) ==> after == before && !finished,
        before.queue.dispatching@.contains(offer.ticket.value) ==> {
            &&& !after.queue.dispatching@.contains(offer.ticket.value)
            &&& finished <==> exists|i: int|
                0 <= i < before.queue.slots@.len() && (#[trigger] before.queue.slots@[i]).ticket
                    == offer.ticket.value
            &&& forall|other: u64|
                other != offer.ticket.value ==> (#[trigger] after.queue.dispatching@.contains(other)
                    <==> before.queue.dispatching@.contains(other))
            &&& !remove || !finished ==> after.queue.slots@ == before.queue.slots@
            &&& remove && finished ==> after.queue.slots@.len() + 1 == before.queue.slots@.len()
        },
{
    if before.queue.dispatching@.contains(offer.ticket.value) {
        if before.queue.waits(offer.ticket.value) {
            let at = choose|at: int| #[trigger]
                crate::clone_admission::offer_finished(before, after, offer, remove, refund, at);
            assert(before.queue.slots@[at].ticket == offer.ticket.value);
        }
    }
}

/// A clone is granted exactly where its offer is out, it still waits and it can still finish; it
/// then leaves. One that can no longer finish leaves too, and is told of its deadline.
pub proof fn law_granted_clones_leave(
    before: CloneQueueState,
    after: CloneQueueState,
    offer: CloneOffer,
    decision: GrantFinalization,
)
    requires
        crate::clone_admission::grant_follows(before, after, offer, decision),
    ensures
        !before.queue.dispatching@.contains(offer.ticket.value) ==> after == before
            && decision is Cancelled,
        decision is Cancelled <==> !(before.queue.dispatching@.contains(offer.ticket.value)
            && exists|i: int|
            0 <= i < before.queue.slots@.len() && (#[trigger] before.queue.slots@[i]).ticket
                == offer.ticket.value),
        decision is Cancelled ==> after.queue.slots@ == before.queue.slots@,
        !(decision is Cancelled) ==> after.queue.slots@.len() + 1 == before.queue.slots@.len(),
        decision matches GrantFinalization::Accepted(request) ==> exists|i: int|
            0 <= i < before.queue.slots@.len() && (#[trigger] before.queue.slots@[i]).ticket
                == offer.ticket.value && before.queue.slots@[i].request == request,
        decision matches GrantFinalization::Accepted(request) ==> (before.last_observed_at is Some
            ==> before.last_observed_at->0.unix_nanos < request.deadline.unix_nanos
            && before.last_observed_at->0.unix_nanos + request.service_estimate.nanos
            <= request.deadline.unix_nanos),
        !after.queue.dispatching@.contains(offer.ticket.value),
{
    if before.queue.dispatching@.contains(offer.ticket.value) {
        if before.queue.waits(offer.ticket.value) {
            let at = choose|at: int| #[trigger]
                crate::clone_admission::grant_finished(before, after, offer, decision, at);
            assert(before.queue.slots@[at].ticket == offer.ticket.value);
        }
    }
}

/// An offer of a push that is not out changes nothing and is not finished. One whose push has left
/// gives its units back and is not finished. Any other is finished, and the push stays or leaves as
/// asked; one that leaves is counted as a rejection. No capacity changes hands.
pub proof fn law_ended_push_offers_leave_no_trace(
    before: PushQueueState,
    after: PushQueueState,
    offer: PushOffer,
    remove: bool,
    refund: bool,
    finished: bool,
)
    requires
        crate::push_admission::finish_follows(before, after, offer, remove, refund, finished),
    ensures
        !before.queue.dispatching@.contains(offer.ticket.value) ==> after == before && !finished,
        finished <==> (before.queue.dispatching@.contains(offer.ticket.value) && exists|i: int|
            0 <= i < before.queue.slots@.len() && (#[trigger] before.queue.slots@[i]).ticket
                == offer.ticket.value),
        after.backend == before.backend,
        after.active == before.active,
        after.consecutive_small == before.consecutive_small,
        !finished || !remove ==> after.counters == before.counters,
        finished && remove && before.counters.rejections < u64::MAX ==> after.counters.rejections
            == before.counters.rejections + 1,
        after.counters.grants == before.counters.grants,
{
    if before.queue.dispatching@.contains(offer.ticket.value) {
        if before.queue.waits(offer.ticket.value) {
            let at = choose|at: int| #[trigger]
                crate::push_admission::offer_finished(before, after, offer, remove, refund, at);
            assert(before.queue.slots@[at].ticket == offer.ticket.value);
        }
    }
}

/// A push is granted exactly where its offer is out, it still waits, it can still finish and the
/// backend has room. It then holds that room and is counted as a grant; one without room waits on,
/// and one without time is counted as a rejection.
pub proof fn law_granted_pushes_hold_room(
    before: PushQueueState,
    after: PushQueueState,
    offer: PushOffer,
    grant: PushGrant,
)
    requires
        crate::push_admission::grant_follows(before, after, offer, grant),
    ensures
        !before.queue.dispatching@.contains(offer.ticket.value) ==> after == before
            && grant is Cancelled,
        grant is Cancelled <==> !(before.queue.dispatching@.contains(offer.ticket.value)
            && exists|i: int|
            0 <= i < before.queue.slots@.len() && (#[trigger] before.queue.slots@[i]).ticket
                == offer.ticket.value),
        grant is Cancelled || grant is Waiting || grant is Deadline ==> after.active
            == before.active && after.backend == before.backend && after.counters.grants
            == before.counters.grants && after.consecutive_small == before.consecutive_small,
        grant is Cancelled || grant is Waiting ==> after.counters == before.counters,
        grant is Deadline && before.counters.rejections < u64::MAX ==> after.counters.rejections
            == before.counters.rejections + 1,
        grant matches PushGrant::Accepted { request, observed_at } ==> {
            &&& after.active == before.active + 1
            &&& after.backend.workers == before.backend.workers + request.cost.workers
            &&& after.backend.ranges == before.backend.ranges + request.cost.range_concurrency
            &&& after.backend.multipart == before.backend.multipart
                + request.cost.multipart_concurrency
            &&& after.backend.quarantine_bytes == before.backend.quarantine_bytes
                + request.cost.quarantine_bytes
            &&& before.counters.grants < u64::MAX ==> after.counters.grants
                == before.counters.grants + 1
            &&& after.counters.rejections == before.counters.rejections
            &&& observed_at.unix_nanos + request.service_estimate.nanos
                <= request.deadline.unix_nanos
            &&& before.last_observed_at is Some ==> observed_at == before.last_observed_at->0
            &&& before.last_observed_at is None ==> observed_at == request.submitted_at
            &&& request.cost.fair_service_units > before.limits.small_push_units
                ==> after.consecutive_small == 0
            &&& request.cost.fair_service_units <= before.limits.small_push_units
                && before.consecutive_small < u32::MAX ==> after.consecutive_small
                == before.consecutive_small + 1
        },
{
    if before.queue.dispatching@.contains(offer.ticket.value) {
        if before.queue.waits(offer.ticket.value) {
            let at = choose|at: int| #[trigger]
                crate::push_admission::grant_finished(before, after, offer, grant, at);
            assert(before.queue.slots@[at].ticket == offer.ticket.value);
        }
    }
}

/// A push that ends gives back exactly what it held: one active push fewer, and of each capacity what
/// it cost. Nothing is given back that nobody holds.
pub proof fn law_ended_pushes_give_back_their_room(state: PushQueueState, cost: PushAdmissionCost)
    ensures
        ({
            let after = released(state, cost);
            let held = state.active > 0 && state.backend.workers >= cost.workers
                && state.backend.ranges >= cost.range_concurrency && state.backend.multipart
                >= cost.multipart_concurrency && state.backend.quarantine_bytes
                >= cost.quarantine_bytes;
            &&& held ==> after.active + 1 == state.active && after.backend.workers + cost.workers
                == state.backend.workers && after.backend.ranges + cost.range_concurrency
                == state.backend.ranges && after.backend.multipart + cost.multipart_concurrency
                == state.backend.multipart && after.backend.quarantine_bytes
                + cost.quarantine_bytes == state.backend.quarantine_bytes
            &&& !held ==> after == state
            &&& after.queue == state.queue
            &&& after.counters == state.counters
            &&& after.limits == state.limits
            &&& after.last_round == state.last_round
            &&& after.consecutive_small == state.consecutive_small
            &&& after.last_observed_at == state.last_observed_at
        }),
{
}

/// Rounds and counters only go forward.
pub proof fn law_rounds_and_counters_go_forward(last_round: u64, logical_round: u64, count: u64)
    ensures
        round_after(last_round, logical_round) >= last_round,
        round_after(last_round, logical_round) >= logical_round,
        round_after(last_round, logical_round) == last_round || round_after(
            last_round,
            logical_round,
        ) == logical_round,
        count < u64::MAX ==> bumped(count) - count == 1,
        bumped(u64::MAX) == u64::MAX,
{
}

/// A small grant makes the run of small ones longer by one, as far as it can be counted, and a large
/// one ends it.
pub proof fn law_large_grants_end_the_run(run: u32)
    ensures
        small_run_after(run, false) == 0,
        run < u32::MAX ==> small_run_after(run, true) - run == 1,
        small_run_after(u32::MAX, true) == u32::MAX,
{
}

/// Small pushes may pass a large one that could be served, but only so many times: then a large one
/// is offered. Where no large one could be served, nothing is counted.
pub proof fn law_large_pushes_are_not_passed_for_ever(
    before: PushQueueState,
    ready: FairQueue<PushAdmissionRequest>,
    observed_at: Timestamp,
    at: int,
)
    ensures
        must_serve_large(before, ready, observed_at) && candidate(
            ready,
            before.backend,
            at,
            observed_at,
            before.limits,
            true,
        ) ==> ready.slots@[at].request.cost.fair_service_units > before.limits.small_push_units,
        large_waits(ready, before.backend, observed_at, before.limits) && before.consecutive_small
            >= before.limits.max_small_bypass ==> must_serve_large(before, ready, observed_at),
        before.consecutive_small < before.limits.max_small_bypass ==> !must_serve_large(
            before,
            ready,
            observed_at,
        ),
        large_waits(ready, before.backend, observed_at, before.limits) ==> run_kept(
            before,
            ready,
            observed_at,
        ) == before.consecutive_small,
        !large_waits(ready, before.backend, observed_at, before.limits) ==> run_kept(
            before,
            ready,
            observed_at,
        ) == 0,
        candidate(ready, before.backend, at, observed_at, before.limits, false) <==> eligible(
            ready,
            before.backend,
            at,
            observed_at,
            before.limits,
        ),
        large_waits(ready, before.backend, observed_at, before.limits) <==> exists|i: int|
            0 <= i < ready.slots@.len() && #[trigger] eligible(
                ready,
                before.backend,
                i,
                observed_at,
                before.limits,
            ) && ready.slots@[i].request.cost.fair_service_units > before.limits.small_push_units,
{
}

/// A cancelled push leaves the queue, is counted as a cancellation and as nothing else, and changes
/// no offer and no capacity.
pub proof fn law_cancelled_push_leaves(
    before: PushQueueState,
    after: PushQueueState,
    ticket: PushAdmissionTicket,
)
    requires
        one_cancelled(before, after, ticket),
    ensures
        after.queue.slots@.len() + 1 == before.queue.slots@.len(),
        exists|i: int|
            0 <= i < before.queue.slots@.len() && (#[trigger] before.queue.slots@[i]).ticket
                == ticket.value,
        before.counters.cancellations < u64::MAX ==> after.counters.cancellations
            == before.counters.cancellations + 1,
        after.counters.rejections == before.counters.rejections,
        after.counters.grants == before.counters.grants,
        after.queue.dispatching@ == before.queue.dispatching@,
        after.backend == before.backend,
        after.active == before.active,
        after.queue.cursor == before.queue.cursor,
{
    let at = choose|at: int| #[trigger] cancelled_at(before, after, ticket, at);
    assert(before.queue.slots@[at].ticket == ticket.value);
}

/// An observation is refused exactly where its time or its round is before the last one.
pub proof fn law_observations_go_forward(
    state: PushQueueState,
    logical_round: u64,
    observed_at: Timestamp,
)
    ensures
        !observation_moved_back(state, logical_round, observed_at) <==> (logical_round
            >= state.last_round && (state.last_observed_at is Some
            ==> state.last_observed_at->0.unix_nanos <= observed_at.unix_nanos)),
        too_late().reason is Deadline,
        too_late().retry is DoNotRetry,
{
}

/// Exactly one clone left, and it was the one with the ticket, and the one that was granted.
pub proof fn law_one_clone_leaves(
    before: Seq<QueueSlot<CloneAdmissionRequest>>,
    after: Seq<QueueSlot<CloneAdmissionRequest>>,
    ticket: u64,
    request: CloneAdmissionRequest,
)
    ensures
        crate::clone_admission::one_left(before, after, ticket) ==> after.len() + 1 == before.len()
            && exists|i: int|
            0 <= i < before.len() && (#[trigger] before[i]).ticket == ticket && after
                == before.remove(i),
        crate::clone_admission::one_granted(before, after, ticket, request) ==> after.len() + 1
            == before.len() && exists|i: int|
            0 <= i < before.len() && (#[trigger] before[i]).ticket == ticket && before[i].request
                == request && after == before.remove(i),
{
    if crate::clone_admission::one_left(before, after, ticket) {
        let at = choose|at: int| #[trigger]
            crate::clone_admission::left_at(before, after, ticket, at);
        assert(before[at].ticket == ticket);
    }
    if crate::clone_admission::one_granted(before, after, ticket, request) {
        let at = choose|at: int| #[trigger]
            crate::clone_admission::left_at(before, after, ticket, at) && before[at].request
                == request;
        assert(before[at].ticket == ticket);
    }
}

/// Exactly one push left, and it was the one with the ticket, and the one that was granted.
pub proof fn law_one_push_leaves(
    before: Seq<QueueSlot<PushAdmissionRequest>>,
    after: Seq<QueueSlot<PushAdmissionRequest>>,
    ticket: u64,
    request: PushAdmissionRequest,
)
    ensures
        crate::push_admission::one_left(before, after, ticket) ==> after.len() + 1 == before.len()
            && exists|i: int|
            0 <= i < before.len() && (#[trigger] before[i]).ticket == ticket && after
                == before.remove(i),
        crate::push_admission::one_granted(before, after, ticket, request) ==> after.len() + 1
            == before.len() && exists|i: int|
            0 <= i < before.len() && (#[trigger] before[i]).ticket == ticket && before[i].request
                == request && after == before.remove(i),
{
    if crate::push_admission::one_left(before, after, ticket) {
        let at = choose|at: int| #[trigger]
            crate::push_admission::left_at(before, after, ticket, at);
        assert(before[at].ticket == ticket);
    }
    if crate::push_admission::one_granted(before, after, ticket, request) {
        let at = choose|at: int| #[trigger]
            crate::push_admission::left_at(before, after, ticket, at) && before[at].request
                == request;
        assert(before[at].ticket == ticket);
    }
}

/// A clone takes one slot and as much of each resource as it costs.
pub proof fn law_clone_takes_what_it_costs(request: CloneAdmissionRequest)
    ensures
        ({
            let weights = request.cost.spec_weights();
            &&& weights.slots == 1
            &&& weights.memory_bytes == request.cost.memory_bytes
            &&& weights.io_bytes == request.cost.io_bytes
            &&& weights.cpu_units == request.cost.cpu_units
            &&& weights.sql_units == request.cost.sql_units
            &&& weights.s3_units == request.cost.s3_units
        }),
{
}

/// A push takes one slot; as memory its inflated, base, metadata and quarantined bytes; as input and
/// output its compressed and external bytes; its validation work; its statements and rows; and its
/// external requests. It can be weighed exactly where each of those sums fits 64 bits.
pub proof fn law_push_takes_what_it_costs(cost: PushAdmissionCost)
    ensures
        cost.weights_fit() <==> (cost.inflated_bytes + cost.base_bytes + cost.metadata_bytes
            + cost.quarantine_bytes <= u64::MAX && cost.compressed_bytes + cost.external_bytes
            <= u64::MAX && cost.sql_statements + cost.sql_rows <= u64::MAX),
        cost.weights_fit() ==> {
            let weights = cost.spec_weights();
            &&& weights.slots == 1
            &&& weights.memory_bytes - cost.inflated_bytes - cost.base_bytes - cost.metadata_bytes
                == cost.quarantine_bytes
            &&& weights.io_bytes - cost.compressed_bytes == cost.external_bytes
            &&& weights.cpu_units == cost.validation_work
            &&& weights.sql_units - cost.sql_statements == cost.sql_rows
            &&& weights.s3_units == cost.external_requests
        },
{
}

/// Every tenant and every repository has the bounds of its own kind.
pub proof fn law_clone_quotas_are_of_their_kind(limits: CloneQueueLimits)
    ensures
        limits.tenant_quota().max_count == limits.max_tenant_queued,
        limits.tenant_quota().max_bytes == limits.max_tenant_queued_bytes,
        limits.repository_quota().max_count == limits.max_repository_queued,
        limits.repository_quota().max_bytes == limits.max_repository_queued_bytes,
{
}

/// Publication is durable once it is published, and before that it is not.
pub proof fn law_publication_is_durable_once_published(phase: PushExecutionPhase)
    ensures
        phase.spec_durable() <==> (phase is Published || phase is OutputStarted),
{
}

/// What only moves the queue keeps the limits, the latest time and the latest round.
pub proof fn law_clocks_are_kept(
    left: PushQueueState,
    right: PushQueueState,
    one: CloneQueueState,
    other: CloneQueueState,
)
    ensures
        left.same_clock(right) <==> (right.limits == left.limits && right.last_observed_at
            == left.last_observed_at && right.last_round == left.last_round),
        left.same_but_queue(right) ==> left.same_clock(right) && right.consecutive_small
            == left.consecutive_small && right.backend == left.backend && right.active
            == left.active && right.counters == left.counters,
        one.same_clock(other) <==> (other.limits == one.limits && other.last_observed_at
            == one.last_observed_at && other.last_credit_at == one.last_credit_at),
{
}

/// A cancellation keeps the run of small grants and the clock.
pub proof fn law_cancellation_keeps_the_run(
    before: PushQueueState,
    after: PushQueueState,
    ticket: PushAdmissionTicket,
)
    requires
        one_cancelled(before, after, ticket),
    ensures
        after.consecutive_small == before.consecutive_small,
        after.last_observed_at == before.last_observed_at,
        after.last_round == before.last_round,
        after.limits == before.limits,
        after.counters.completed == before.counters.completed,
        after.counters.published == before.counters.published,
        after.counters.aborted == before.counters.aborted,
{
    let at = choose|at: int| #[trigger] cancelled_at(before, after, ticket, at);
    assert(cancelled_at(before, after, ticket, at));
}

/// A push round ends as the shared controller answered: it waits where capacity is occupied, is
/// rejected for the same reason and with the same advice where it was rejected, and fails with the
/// controller's error where that refused to answer.
pub proof fn law_push_rounds_heed_the_controller<P>(
    answer: Result<
        crate::admission::AdmissionOutcome,
        crate::admission::AdmissionConfigError,
    >,
    result: Result<
        crate::push_admission::PushScheduleDecision<P>,
        crate::push_admission::PushAdmissionError,
    >,
)
    requires
        crate::push_admission::answer_heeded(answer, result),
    ensures
        answer is Err ==> result is Err && result->Err_0
            == crate::push_admission::PushAdmissionError::Admission(answer->Err_0),
        answer is Ok && answer->Ok_0 is Granted ==> result is Ok,
        answer is Ok && answer->Ok_0 is Queued ==> result is Ok && result->Ok_0 is Waiting,
        answer is Ok && answer->Ok_0 is Rejected ==> result is Ok && result->Ok_0 is Rejected
            && result->Ok_0->rejection.retry == answer->Ok_0->retry
            && result->Ok_0->rejection.reason == crate::push_admission::mapped_reason(
            answer->Ok_0->reason,
        ),
{
}

/// A controller is told nothing of a push round that offers nothing, and a permit is given only where
/// it granted one.
pub proof fn law_push_rounds_without_an_offer_ask_nobody<P>(
    told: Seq<crate::admission::AdmissionExchange>,
    tells: Seq<crate::admission::AdmissionExchange>,
    observed_at: Timestamp,
    selection: crate::push_admission::PushSelection,
    result: Result<
        crate::push_admission::PushScheduleDecision<P>,
        crate::push_admission::PushAdmissionError,
    >,
)
    requires
        crate::push_admission::controller_heeded(told, tells, observed_at, selection, result),
    ensures
        !(selection is Offer) ==> tells == told,
        selection is Offer ==> exists|
            answer: Result<
                crate::admission::AdmissionOutcome,
                crate::admission::AdmissionConfigError,
            >,
        |
            #[trigger] crate::admission::asked(
                told,
                tells,
                selection->request,
                observed_at,
                answer,
            ) && (result is Ok && result->Ok_0 is Granted ==> answer is Ok
                && answer->Ok_0 is Granted),
{
}

} // verus!
