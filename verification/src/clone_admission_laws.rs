//! What holds of the clone queue, told in the terms of its limits and of the clones that wait.

use crate::admission::{
    asked, settled, AdmissionConfigError, AdmissionExchange, AdmissionIdentity, AdmissionOutcome,
    AdmissionRequest, AdmissionTicket, ResourceClass,
};
use crate::clock::Timestamp;
use crate::clone_admission::{
    controller_heeded, cost_now, credit_given, eligible, expired, expires, finish_follows,
    grant_finished, offer_finished, offers, poll_follows, record_bytes, round_follows,
    selection_follows, slot_sound, CloneAdmissionError, CloneAdmissionRequest, CloneOffer,
    CloneQueueLimits, CloneQueueState, CloneScheduleDecision, CloneSelection, GrantFinalization,
};
use crate::clone_metrics::{CloneLimitError, CloneLimits};
use crate::fair_queue::{
    bytes_in, count_in, lemma_counts, slot_bytes, slot_charges, usage_of, FairQueue, QueueSlot,
};
use vstd::prelude::*;

verus! {

/// A waiting clone.
pub type Waiting = QueueSlot<CloneAdmissionRequest>;

/// The clones of one tenant.
pub open spec fn of_tenant(tenant: Seq<char>) -> spec_fn(Waiting) -> bool {
    |slot: Waiting| slot.request.identity.tenant@ == tenant
}

/// The clones of one repository.
pub open spec fn of_repository(tenant: Seq<char>, repository: Seq<char>) -> spec_fn(
    Waiting,
) -> bool {
    |slot: Waiting|
        slot.request.identity.tenant@ == tenant && slot.request.identity.repository@ == repository
}

/// What waiting clones retain together.
pub open spec fn retained(slots: Seq<Waiting>) -> int
    decreases slots.len(),
{
    if slots.len() == 0 {
        0
    } else {
        retained(slots.drop_last()) + slots.last().request.queued_bytes
    }
}

/// The clones that share a scope of one kind with an identity.
spec fn beside(identity: AdmissionIdentity, kind: int) -> spec_fn(Waiting) -> bool {
    if kind == 0 {
        of_tenant(identity.tenant@)
    } else {
        of_repository(identity.tenant@, identity.repository@)
    }
}

/// The key of a scope of one kind.
spec fn key_of(identity: AdmissionIdentity, kind: int) -> (Seq<char>, Seq<char>) {
    if kind == 0 {
        crate::admission::tenant_scope(identity)
    } else {
        crate::admission::repository_scope(identity)
    }
}

proof fn lemma_scope_is_counted(
    slots: Seq<Waiting>,
    limits: CloneQueueLimits,
    identity: AdmissionIdentity,
    kind: int,
)
    requires
        0 <= kind < 2,
        forall|i: int| 0 <= i < slots.len() ==> slot_sound(#[trigger] slots[i], limits),
    ensures
        count_in(slot_charges(slots, kind), key_of(identity, kind)) == slots.filter(
            beside(identity, kind),
        ).len(),
        bytes_in(slot_charges(slots, kind), key_of(identity, kind)) == retained(
            slots.filter(beside(identity, kind)),
        ),
        slot_bytes(slots) == retained(slots),
    decreases slots.len(),
{
    reveal(Seq::filter);
    if slots.len() > 0 {
        let front = slots.drop_last();
        let last = slots.last();
        assert forall|i: int| 0 <= i < front.len() implies slot_sound(
            #[trigger] front[i],
            limits,
        ) by {
            assert(front[i] == slots[i]);
        }
        lemma_scope_is_counted(front, limits, identity, kind);
        assert(slot_charges(slots, kind).drop_last() =~= slot_charges(front, kind));
        assert(slots[slots.len() - 1] == last);
        assert(slot_sound(last, limits));
        assert(last.keys@[kind]@ == key_of(last.request.identity, kind));
        let kept = front.filter(beside(identity, kind));
        assert(kept.push(last).drop_last() =~= kept);
    }
}

/// What a queue records for a scope is what waits there.
proof fn lemma_scope_usage(state: CloneQueueState, identity: AdmissionIdentity, kind: int)
    requires
        state.wf(),
        0 <= kind < 2,
    ensures
        ({
            let usage = usage_of(state.queue.scope(kind), key_of(identity, kind));
            let there = state.queue.slots@.filter(beside(identity, kind));
            &&& usage.count == there.len()
            &&& usage.bytes == retained(there)
        }),
{
    let slots = state.queue.slots@;
    let key = key_of(identity, kind);
    let charges = slot_charges(slots, kind);
    lemma_scope_is_counted(slots, state.limits, identity, kind);
    lemma_counts(charges, key);
    assert(crate::fair_queue::scope_matches(state.queue.scope(kind), charges));
    assert(state.queue.scope(kind).dom().contains(key) <==> count_in(charges, key) > 0);
}

/// After every operation the clones that wait, those of one tenant and those of one repository keep
/// to their own limits, in number and in bytes.
pub proof fn law_waiting_clones_keep_their_bounds(
    state: CloneQueueState,
    identity: AdmissionIdentity,
)
    requires
        state.wf(),
    ensures
        ({
            let slots = state.queue.slots@;
            let limits = state.limits;
            let tenant = slots.filter(of_tenant(identity.tenant@));
            let repository = slots.filter(
                of_repository(identity.tenant@, identity.repository@),
            );
            &&& slots.len() <= limits.max_queued
            &&& retained(slots) <= limits.max_queued_bytes
            &&& tenant.len() <= limits.max_tenant_queued
            &&& retained(tenant) <= limits.max_tenant_queued_bytes
            &&& repository.len() <= limits.max_repository_queued
            &&& retained(repository) <= limits.max_repository_queued_bytes
        }),
{
    lemma_scope_usage(state, identity, 0);
    lemma_scope_usage(state, identity, 1);
    lemma_scope_is_counted(state.queue.slots@, state.limits, identity, 0);
    let tenant = key_of(identity, 0);
    let repository = key_of(identity, 1);
    assert(state.queue.scope(0).dom().contains(tenant) || !state.queue.scope(0).dom().contains(
        tenant,
    ));
    assert(state.queue.scope(1).dom().contains(repository)
        || !state.queue.scope(1).dom().contains(repository));
}

/// A clone that may be queued at all is refused as the queue being full exactly where it would exceed
/// the limits of the whole queue, of its tenant or of its repository.
pub proof fn law_full_scopes_refuse(state: CloneQueueState, request: CloneAdmissionRequest)
    requires
        state.wf(),
        request.fault() is None,
        request.cost.fair_service_units <= state.limits.max_deficit,
    ensures
        ({
            let slots = state.queue.slots@;
            let limits = state.limits;
            let identity = request.identity;
            let more = request.queued_bytes;
            let tenant = slots.filter(of_tenant(identity.tenant@));
            let repository = slots.filter(
                of_repository(identity.tenant@, identity.repository@),
            );
            &&& state.enqueue_fault(request) == Some(CloneAdmissionError::QueueFull) <==> {
                ||| slots.len() + 1 > limits.max_queued
                ||| retained(slots) + more > limits.max_queued_bytes
                ||| tenant.len() + 1 > limits.max_tenant_queued
                ||| retained(tenant) + more > limits.max_tenant_queued_bytes
                ||| repository.len() + 1 > limits.max_repository_queued
                ||| retained(repository) + more > limits.max_repository_queued_bytes
            }
            &&& state.enqueue_fault(request) is None || state.enqueue_fault(request) == Some(
                CloneAdmissionError::QueueFull,
            ) || state.queue.next_ticket == u64::MAX
        }),
{
    lemma_scope_usage(state, request.identity, 0);
    lemma_scope_usage(state, request.identity, 1);
    lemma_scope_is_counted(state.queue.slots@, state.limits, request.identity, 0);
}

/// A clone that is not sound is refused for its own fault, and one that no credit can ever pay for
/// its cost.
pub proof fn law_unsound_clones_are_refused(state: CloneQueueState, request: CloneAdmissionRequest)
    ensures
        request.fault() is Some ==> state.enqueue_fault(request) == request.fault(),
        request.fault() is None && request.cost.fair_service_units > state.limits.max_deficit
            ==> state.enqueue_fault(request) == Some(CloneAdmissionError::InvalidCost),
{
}

/// A request is sound exactly where its shape, its output and its times keep to its clone limits, its
/// cost is positive where it must be, and it retains at least its own record.
pub proof fn law_sound_request_keeps_to_its_limits(request: CloneAdmissionRequest)
    ensures
        ({
            let limits = request.clone_limits;
            request.fault() is None <==> {
                &&& !limits.some_zero()
                &&& !limits.some_above(CloneLimits::spec_hard_max())
                &&& request.wants <= limits.max_wants
                &&& request.haves <= limits.max_haves
                &&& request.selected_objects <= limits.max_selected_objects
                &&& 1 <= request.output_bytes <= limits.max_output_bytes
                &&& 1 <= request.cost.memory_bytes
                &&& 1 <= request.cost.io_bytes
                &&& 1 <= request.cost.cpu_units
                &&& 1 <= request.cost.fair_service_units
                &&& request.queued_bytes >= record_bytes(request.identity)
                &&& crate::admission::actor_fits(request.identity.actor@)
                &&& 1 <= request.service_estimate.nanos <= limits.max_duration.nanos
                &&& request.submitted_at.unix_nanos < request.deadline.unix_nanos
                &&& request.deadline.unix_nanos - request.submitted_at.unix_nanos
                    <= limits.max_duration.nanos
                &&& request.submitted_at.unix_nanos + request.service_estimate.nanos
                    <= request.deadline.unix_nanos
            }
        }),
        request.fault() == Some(CloneAdmissionError::CloneLimits(CloneLimitError::RequestShape))
            ==> request.wants > request.clone_limits.max_wants || request.haves
            > request.clone_limits.max_haves,
{
}

/// The controller is asked for one clone slot and for the whole cost; identity and times are the
/// request's own.
pub proof fn law_controller_is_asked_for_all_of_it(
    request: CloneAdmissionRequest,
    submitted: AdmissionRequest,
)
    requires
        request.submits(submitted),
    ensures
        submitted.class == ResourceClass::Clone,
        submitted.weights.slots == 1,
        submitted.weights.memory_bytes == request.cost.memory_bytes,
        submitted.weights.io_bytes == request.cost.io_bytes,
        submitted.weights.cpu_units == request.cost.cpu_units,
        submitted.weights.sql_units == request.cost.sql_units,
        submitted.weights.s3_units == request.cost.s3_units,
        submitted.identity.tenant@ == request.identity.tenant@,
        submitted.identity.repository@ == request.identity.repository@,
        submitted.identity.actor@ == request.identity.actor@,
        submitted.submitted_at == request.submitted_at,
        submitted.deadline == request.deadline,
        submitted.service_estimate == request.service_estimate,
{
}

/// Limits that may be used are nested, from a repository's up to the whole queue's.
pub proof fn law_usable_limits_are_nested(limits: CloneQueueLimits)
    ensures
        limits.valid() <==> {
            &&& 1 <= limits.max_repository_queued
            &&& limits.max_repository_queued <= limits.max_tenant_queued
            &&& limits.max_tenant_queued <= limits.max_queued
            &&& 1 <= limits.max_repository_queued_bytes
            &&& limits.max_repository_queued_bytes <= limits.max_tenant_queued_bytes
            &&& limits.max_tenant_queued_bytes <= limits.max_queued_bytes
            &&& 1 <= limits.fair_quantum <= limits.max_deficit
            &&& 1 <= limits.aging_interval.nanos
        },
{
}

/// A clone that can be offered now: submitted, and with the credit of its tenant and repository.
pub open spec fn servable(
    queue: FairQueue<CloneAdmissionRequest>,
    at: int,
    now: Timestamp,
    limits: CloneQueueLimits,
) -> bool {
    let slot = queue.slots@[at];
    let request = slot.request;
    let units = cost_now(request, now, limits);
    let tenant = (request.identity.tenant@, Seq::<char>::empty());
    let repository = (request.identity.tenant@, request.identity.repository@);
    &&& !queue.dispatching@.contains(slot.ticket)
    &&& request.submitted_at.unix_nanos <= now.unix_nanos
    &&& units <= usage_of(queue.scope(0), tenant).credit()
    &&& units <= usage_of(queue.scope(1), repository).credit()
}

/// A scan leaves every clone waiting only where none can be offered now, and offers only one that
/// can, the first from the cursor on.
pub proof fn law_scan_serves_what_it_can(
    before: CloneQueueState,
    after: CloneQueueState,
    now: Timestamp,
    selection: CloneSelection,
)
    requires
        selection_follows(before, after, now, selection),
    ensures
        selection is Waiting ==> forall|i: int|
            0 <= i < after.queue.slots@.len() ==> !#[trigger] servable(
                after.queue,
                i,
                now,
                after.limits,
            ),
        selection matches CloneSelection::Offer { offer, .. } ==> exists|
            ready: FairQueue<CloneAdmissionRequest>,
            at: int,
        |
            0 <= at < before.queue.slots@.len() && before.queue.slots@[at].ticket
                == offer.ticket.value && ready.slots@ == before.queue.slots@ && #[trigger] servable(
                ready,
                at,
                now,
                before.limits,
            ),
{
    match selection {
        CloneSelection::Waiting { queued } => {
            assert forall|i: int| 0 <= i < after.queue.slots@.len() implies !#[trigger] servable(
                after.queue,
                i,
                now,
                after.limits,
            ) by {
                assert(!eligible(after.queue, i, now, before.limits));
            }
        },
        CloneSelection::Offer { offer, request } => {
            let (ready, offset) = choose|ready: FairQueue<CloneAdmissionRequest>, offset: int|
                credit_given(before, ready, now) && #[trigger] offers(
                    ready,
                    after,
                    now,
                    offer,
                    request,
                    offset,
                );
            let at = crate::fair_queue::rotated(ready.cursor, offset, ready.slots@.len());
            crate::fair_queue::lemma_rotated(ready.cursor, offset, ready.slots@.len());
            assert(servable(ready, at, now, before.limits));
        },
        _ => {},
    }
}

/// A scan removes a clone only where it could not finish before its deadline any more, and no clone
/// that arrived earlier is in that state; it goes on only where no clone is.
pub proof fn law_late_clones_leave_first(
    before: CloneQueueState,
    after: CloneQueueState,
    now: Timestamp,
    selection: CloneSelection,
    i: int,
)
    requires
        selection_follows(before, after, now, selection),
        0 <= i < before.queue.slots@.len(),
        !before.queue.dispatching@.contains(before.queue.slots@[i].ticket),
    ensures
        ({
            let request = before.queue.slots@[i].request;
            let late = now.unix_nanos >= request.deadline.unix_nanos || now.unix_nanos
                + request.service_estimate.nanos > request.deadline.unix_nanos;
            &&& late ==> selection is Expired
            &&& selection matches CloneSelection::Expired { ticket } ==> exists|at: int|
                0 <= at < before.queue.slots@.len() && (#[trigger] before.queue.slots@[at]).ticket
                    == ticket.value && after.queue.slots@ == before.queue.slots@.remove(at) && (late
                    ==> at <= i) && (at == i ==> late)
        }),
{
    match selection {
        CloneSelection::Expired { ticket } => {
            let at = choose|at: int| #[trigger] expires(before, after, now, ticket, at);
            assert(before.queue.slots@[at].ticket == ticket.value);
            if i < at {
                assert(!expired(before.queue, i, now));
            }
        },
        CloneSelection::Waiting { .. } => {
            assert(!expired(before.queue, i, now));
        },
        CloneSelection::Offer { .. } => {
            assert(!expired(before.queue, i, now));
        },
    }
}

/// An observation at a new time gives every waiting scope one quantum, up to the maximum; one at the
/// same time gives nothing more.
pub proof fn law_observations_give_one_quantum(
    before: CloneQueueState,
    after: FairQueue<CloneAdmissionRequest>,
    now: Timestamp,
    kind: int,
    key: (Seq<char>, Seq<char>),
)
    requires
        credit_given(before, after, now),
        0 <= kind < 2,
        before.queue.scope(kind).dom().contains(key),
    ensures
        ({
            let old_credit = usage_of(before.queue.scope(kind), key).credit();
            let new_credit = usage_of(after.scope(kind), key).credit();
            let full = old_credit + before.limits.fair_quantum;
            new_credit == if before.last_credit_at == Some(now) {
                old_credit as int
            } else if full <= before.limits.max_deficit {
                full
            } else {
                before.limits.max_deficit as int
            }
        }),
{
    assert(kind == 0 || kind == 1);
}

/// An offered clone is granted exactly where it can still finish; either way it leaves the queue.
pub proof fn law_grants_are_in_time(
    before: CloneQueueState,
    after: CloneQueueState,
    offer: CloneOffer,
    decision: GrantFinalization,
    at: int,
    now: Timestamp,
)
    requires
        grant_finished(before, after, offer, decision, at),
        before.last_observed_at == Some(now),
    ensures
        ({
            let request = before.queue.slots@[at].request;
            let late = now.unix_nanos >= request.deadline.unix_nanos || now.unix_nanos
                + request.service_estimate.nanos > request.deadline.unix_nanos;
            &&& before.queue.slots@[at].ticket == offer.ticket.value
            &&& decision is Deadline <==> late
            &&& !late ==> decision == GrantFinalization::Accepted(request)
            &&& after.queue.slots@ == before.queue.slots@.remove(at)
        }),
{
}

/// A clone that was offered and goes on waiting is the last one that the next scan looks at.
pub proof fn law_offered_clone_goes_to_the_back(
    before: CloneQueueState,
    after: CloneQueueState,
    offer: CloneOffer,
    refund: bool,
    at: int,
)
    requires
        offer_finished(before, after, offer, false, refund, at),
    ensures
        crate::fair_queue::rotated(
            after.queue.cursor,
            after.queue.slots@.len() - 1,
            after.queue.slots@.len(),
        ) == at,
{
    let len = after.queue.slots@.len() as int;
    let cursor = after.queue.cursor as int;
    assert(cursor == (at + 1) % len);
    if at + 1 == len {
        assert((at + 1) % len == 0) by {
            vstd::arithmetic::div_mod::lemma_mod_self_0(len);
        }
        vstd::arithmetic::div_mod::lemma_small_mod((len - 1) as nat, len as nat);
    } else {
        vstd::arithmetic::div_mod::lemma_small_mod((at + 1) as nat, len as nat);
        assert(cursor + (len - 1) == len + at);
        vstd::arithmetic::div_mod::lemma_mod_add_multiples_vanish(at, len);
        vstd::arithmetic::div_mod::lemma_small_mod(at as nat, len as nat);
    }
}

/// A clone is granted only where the controller granted it, and is then the one with its ticket that
/// waited, which has left; one is rejected only where it was late or the controller says so; and
/// where the round leaves things as they are, every clone still waits.
pub proof fn law_rounds_end_as_answered<P>(
    before: CloneQueueState,
    after: CloneQueueState,
    told: Seq<AdmissionExchange>,
    tells: Seq<AdmissionExchange>,
    now: Timestamp,
    result: Result<CloneScheduleDecision<P>, CloneAdmissionError>,
)
    requires
        before.wf(),
        poll_follows(before, after, told, tells, now, result),
    ensures
        match result {
            Ok(CloneScheduleDecision::Granted { ticket, request, .. }) => {
                &&& exists|at: int|
                    0 <= at < before.queue.slots@.len() && (
                    #[trigger] before.queue.slots@[at]).ticket == ticket.value
                        && before.queue.slots@[at].request == request && after.queue.slots@
                        == before.queue.slots@.remove(at)
                &&& exists|asked_for: AdmissionRequest| #[trigger]
                    asked(told, tells, asked_for, now, Ok(AdmissionOutcome::Granted))
            },
            Ok(CloneScheduleDecision::Rejected { ticket, .. }) => exists|at: int|
                0 <= at < before.queue.slots@.len() && (#[trigger] before.queue.slots@[at]).ticket
                    == ticket.value && after.queue.slots@ == before.queue.slots@.remove(at),
            Ok(CloneScheduleDecision::Waiting { queued }) => after.queue.slots@
                == before.queue.slots@ && queued == before.queue.slots@.len(),
            Err(_) => after.queue.slots@ == before.queue.slots@,
        },
{
    let (chosen, selection) = choose|chosen: CloneQueueState, selection: CloneSelection|
        #[trigger] round_follows(before, chosen, after, now, selection, result)
            && controller_heeded(told, tells, now, selection, result);
    match selection {
        CloneSelection::Waiting { .. } => {},
        CloneSelection::Expired { ticket } => {
            let at = choose|at: int| #[trigger] expires(before, chosen, now, ticket, at);
            assert(before.queue.slots@[at].ticket == ticket.value);
        },
        CloneSelection::Offer { offer, request } => {
            let (ready, offset) = choose|ready: FairQueue<CloneAdmissionRequest>, offset: int|
                credit_given(before, ready, now) && #[trigger] offers(
                    ready,
                    chosen,
                    now,
                    offer,
                    request,
                    offset,
                );
            let place = crate::fair_queue::rotated(ready.cursor, offset, ready.slots@.len());
            crate::fair_queue::lemma_rotated(ready.cursor, offset, ready.slots@.len());
            assert(chosen.queue.slots@ == before.queue.slots@);
            assert(chosen.queue.slots@[place].ticket == offer.ticket.value);
            assert(chosen.queue.waits(offer.ticket.value));
            assert(chosen.queue.dispatching@[ready.dispatching@.len() as int]
                == offer.ticket.value);
            assert(chosen.queue.dispatching@.contains(offer.ticket.value));
            match result {
                Ok(CloneScheduleDecision::Granted { ticket, request: granted, .. }) => {
                    let at = choose|at: int| #[trigger]
                        grant_finished(
                            chosen,
                            after,
                            offer,
                            GrantFinalization::Accepted(granted),
                            at,
                        );
                    assert(before.queue.slots@[at].ticket == ticket.value);
                    let answer = choose|answer: Result<AdmissionOutcome, AdmissionConfigError>|
                        #[trigger] asked(told, tells, request, now, answer)
                            && crate::clone_admission::answer_heeded(answer, result) && (
                        result matches Ok(CloneScheduleDecision::Granted { .. })
                            ==> answer matches Ok(AdmissionOutcome::Granted));
                    assert(asked(told, tells, request, now, Ok(AdmissionOutcome::Granted)));
                },
                Ok(CloneScheduleDecision::Rejected { ticket, .. }) => {
                    if finish_follows(chosen, after, offer, true, true, true) {
                        let at = choose|at: int| #[trigger]
                            offer_finished(chosen, after, offer, true, true, at);
                        assert(before.queue.slots@[at].ticket == ticket.value);
                    } else {
                        let at = choose|at: int| #[trigger]
                            grant_finished(chosen, after, offer, GrantFinalization::Deadline, at);
                        assert(before.queue.slots@[at].ticket == ticket.value);
                    }
                },
                _ => {},
            }
        },
    }
}

/// A controller is asked by one submission and one poll of the ticket that came back; only where it
/// queued the request is the ticket withdrawn.
pub proof fn law_controller_is_asked_once(
    told: Seq<AdmissionExchange>,
    tells: Seq<AdmissionExchange>,
    request: AdmissionRequest,
    now: Timestamp,
    ticket: AdmissionTicket,
    outcome: AdmissionOutcome,
)
    requires
        settled(told, tells, request, now, ticket, outcome),
    ensures
        told.is_prefix_of(tells),
        tells.len() >= told.len() + 2,
        tells[told.len() as int] == (AdmissionExchange::Submitted { request, answer: Ok(ticket) }),
        tells[told.len() as int + 1] == (AdmissionExchange::Polled { ticket, observed_at: now, outcome }),
        outcome is Queued <==> tells.len() > told.len() + 2,
        forall|i: int|
            told.len() + 2 <= i < tells.len() ==> (#[trigger] tells[i] matches
                AdmissionExchange::Withdrawn { ticket: withdrawn, .. } && withdrawn == ticket),
        tells.len() <= told.len() + 4,
{
}

} // verus!
