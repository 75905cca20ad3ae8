use grit_protocol::admission::{
    aged_cost, check_actor, is_overdue, time_moved_back, AdmissionConfigError,
    AdmissionController, AdmissionDecision, AdmissionIdentity, AdmissionRejectReason,
    AdmissionRequest, AdmissionTicket, OpenAdmission, ResourceClass, RetryGuidance,
};
use grit_protocol::clock::{Duration, Timestamp};
use grit_protocol::clone_admission::{
    abort_admitted_clone, CloneAdmissionCost, CloneAdmissionError, CloneAdmissionRequest,
    CloneAdmissionScheduler, CloneExecutionPermit, CloneQueueLimits, CloneQueueState,
    CloneQueueWorkLimit, CloneScheduleDecision, CloneSelection, GrantFinalization,
};
use grit_protocol::clone_metrics::{
    CloneBackendKind, CloneLimitError, CloneLimits, CloneMetricsRecorder, CloneOutcome,
};
use grit_protocol::fair_queue::{covers, FairQueue, ScopeKey, ScopeQuota, ScopeTable, ScopeUsage};
use grit_protocol::object::{RepositoryId, TenantId};
use grit_protocol::pack_stream::{
    BoundedVecPackSink, PackAbortReason, PackChunkSink, PackSinkState, PackStreamLimits,
};
use grit_protocol::push_admission::{
    deadline_rejection, map_rejection, valid_phase_transition, BackendUsage, PushAdmissionCost,
    PushAdmissionError, PushAdmissionRejectReason, PushAdmissionRequest, PushAdmissionScheduler,
    PushExecutionOutcome, PushExecutionPhase, PushQueueLimits, PushQueueWorkLimit,
    PushScheduleDecision,
};
use grit_protocol::push_metrics::ReceivePackLimits;

fn at(unix_nanos: i128) -> Timestamp {
    Timestamp { unix_nanos }
}

fn identity(tenant: &str, repository: &str, actor: &str) -> AdmissionIdentity {
    AdmissionIdentity {
        tenant: TenantId { value: String::from(tenant) },
        repository: RepositoryId { value: String::from(repository) },
        actor: String::from(actor),
    }
}

fn clone_request(tenant: &str, units: u64) -> CloneAdmissionRequest {
    CloneAdmissionRequest {
        identity: identity(tenant, "tools", "ann"),
        wants: 1,
        haves: 0,
        selected_objects: 10,
        output_bytes: 100,
        queued_bytes: 4_096,
        cost: CloneAdmissionCost {
            memory_bytes: 10,
            io_bytes: 20,
            cpu_units: 3,
            sql_units: 4,
            s3_units: 5,
            fair_service_units: units,
        },
        submitted_at: at(1_000),
        deadline: at(1_000_000),
        service_estimate: Duration { nanos: 100 },
        clone_limits: CloneLimits::default(),
    }
}

fn clone_limits() -> CloneQueueLimits {
    CloneQueueLimits {
        max_queued: 4,
        max_queued_bytes: 100_000,
        max_tenant_queued: 3,
        max_tenant_queued_bytes: 50_000,
        max_repository_queued: 2,
        max_repository_queued_bytes: 20_000,
        fair_quantum: 10,
        max_deficit: 100,
        aging_interval: Duration { nanos: 1_000 },
        aging_credit_units: 5,
    }
}

struct Controller {
    answers: Vec<u8>,
    submitted: Vec<AdmissionRequest>,
    cancelled: u32,
}

impl AdmissionController for Controller {
    type Permit = u64;
    type Pressure = bool;

    fn validate_pressure(&self, pressure: &bool) -> Result<(), AdmissionConfigError> {
        if *pressure {
            Ok(())
        } else {
            Err(AdmissionConfigError)
        }
    }

    fn submit(&mut self, request: AdmissionRequest) -> Result<AdmissionTicket, AdmissionConfigError> {
        self.submitted.push(request);
        Ok(AdmissionTicket { value: self.submitted.len() as u64 })
    }

    fn poll(
        &mut self,
        ticket: AdmissionTicket,
        _observed_at: Timestamp,
        _pressure: &bool,
    ) -> AdmissionDecision<u64> {
        match self.answers.pop() {
            Some(1) => AdmissionDecision::Queued,
            Some(2) => AdmissionDecision::Rejected {
                reason: AdmissionRejectReason::BackendOverloaded,
                retry: RetryGuidance::RetryAfter { delay: Duration { nanos: 7 } },
            },
            _ => AdmissionDecision::Granted(ticket.value),
        }
    }

    fn cancel(&mut self, _ticket: AdmissionTicket) -> bool {
        self.cancelled += 1;
        true
    }
}

fn controller(answers: Vec<u8>) -> Controller {
    Controller { answers, submitted: Vec::new(), cancelled: 0 }
}

#[test]
fn aging_lowers_the_cost_to_one() {
    let interval = Duration { nanos: 10 };
    assert_eq!(aged_cost(100, at(0), at(0), interval, 7), 100);
    assert_eq!(aged_cost(100, at(0), at(25), interval, 7), 86);
    assert_eq!(aged_cost(100, at(0), at(1_000), interval, 7), 1);
    assert_eq!(aged_cost(100, at(50), at(10), interval, 7), 100);
}

#[test]
fn overdue_requests_cannot_finish() {
    assert!(!is_overdue(at(90), Duration { nanos: 10 }, at(100)));
    assert!(is_overdue(at(91), Duration { nanos: 10 }, at(100)));
    assert!(time_moved_back(Some(at(5)), at(4)));
    assert!(!time_moved_back(Some(at(5)), at(5)));
    assert!(!time_moved_back(None, at(-9)));
}

#[test]
fn actors_are_named() {
    assert!(check_actor(&String::from("ann")));
    assert!(!check_actor(&String::from("  ")));
    assert!(!check_actor(&String::new()));
    assert!(!check_actor(&String::from("\u{3000}\u{a0}\u{85}\u{2028}\t")));
    assert!(check_actor(&String::from("\u{200b}")));
    assert!(!check_actor(&"a".repeat(513)));
    assert!(check_actor(&"a".repeat(512)));
}

#[test]
fn scopes_count_and_forget() {
    let key = ScopeKey { tenant: String::from("a"), part: String::from("b") };
    let mut table = ScopeTable::new();
    table.charge(&key, 10);
    table.charge(&key, 5);
    assert_eq!(table.usage(&key).count, 2);
    assert_eq!(table.usage(&key).bytes, 15);
    table.credit(7, 10);
    table.credit(7, 10);
    assert_eq!(table.usage(&key).deficit, Some(10));
    table.debit(&key, 4);
    assert!(covers(table.usage(&key), 6));
    assert!(!covers(table.usage(&key), 7));
    table.refund(&key, 4, 10);
    assert_eq!(table.usage(&key).deficit, Some(10));
    table.discharge(&key, 10);
    table.discharge(&key, 5);
    assert_eq!(table.usage(&key).count, 0);
    let quota = ScopeQuota { max_count: 1, max_bytes: 10 };
    let none = ScopeUsage { count: 0, bytes: 0, deficit: None };
    assert!(none.fits(10, quota));
    assert!(!none.fits(11, quota));
}

#[test]
fn fair_queue_keeps_tickets_in_order() {
    let key = |name: &str| ScopeKey { tenant: String::from(name), part: String::new() };
    let mut queue: FairQueue<&str> = FairQueue::new(1);
    let first = queue.push(vec![key("a")], 3, "one");
    let second = queue.push(vec![key("b")], 4, "two");
    assert!(first < second);
    assert_eq!(queue.queued_bytes, 7);
    assert_eq!(queue.locate(second, 0), Some(1));
    queue.begin_dispatch(first);
    assert!(queue.is_dispatching(first));
    assert!(queue.end_dispatch(first));
    assert!(!queue.end_dispatch(first));
    let slot = queue.remove(0);
    assert_eq!(slot.request, "one");
    assert_eq!(queue.queued_bytes, 4);
}

#[test]
fn clone_requests_are_validated() {
    assert_eq!(clone_request("a", 1).validate(), Ok(()));
    let mut many = clone_request("a", 1);
    many.wants = usize::MAX;
    assert_eq!(
        many.validate(),
        Err(CloneAdmissionError::CloneLimits(CloneLimitError::RequestShape))
    );
    assert_eq!(clone_request("a", 0).validate(), Err(CloneAdmissionError::InvalidCost));
    let mut small = clone_request("a", 1);
    small.queued_bytes = 1;
    assert_eq!(small.validate(), Err(CloneAdmissionError::InvalidRequest));
    let mut tight = clone_request("a", 1);
    tight.deadline = at(1_050);
    assert_eq!(tight.validate(), Err(CloneAdmissionError::InvalidRequest));
    let submitted = clone_request("a", 9).admission_request();
    assert_eq!(submitted.class, ResourceClass::Clone);
    assert_eq!(submitted.weights.slots, 1);
    assert_eq!(submitted.weights.s3_units, 5);
}

#[test]
fn clone_queue_is_bounded_by_every_scope() {
    let mut state = CloneQueueState::new(clone_limits()).unwrap();
    assert_eq!(state.enqueue(clone_request("a", 1)).unwrap().get(), 1);
    state.enqueue(clone_request("a", 1)).unwrap();
    assert_eq!(state.enqueue(clone_request("a", 1)), Err(CloneAdmissionError::QueueFull));
    let third = state.enqueue(clone_request("b", 1)).unwrap();
    state.enqueue(clone_request("b", 1)).unwrap();
    assert_eq!(state.enqueue(clone_request("c", 1)), Err(CloneAdmissionError::QueueFull));
    assert_eq!(state.queued(), 4);
    assert!(state.cancel(third));
    assert!(!state.cancel(third));
    assert!(state.enqueue(clone_request("c", 1)).is_ok());
    assert_eq!(
        state.enqueue(clone_request("d", 101)),
        Err(CloneAdmissionError::InvalidCost)
    );
    let mut wrong = clone_limits();
    wrong.max_deficit = 1;
    assert!(matches!(
        CloneQueueState::new(wrong).err(),
        Some(CloneAdmissionError::InvalidQueueLimits)
    ));
}

#[test]
fn clone_service_follows_credit() {
    let mut scheduler = CloneAdmissionScheduler::new(controller(Vec::new()), clone_limits()).unwrap();
    let large = scheduler.enqueue(clone_request("a", 25)).unwrap();
    let small = scheduler.enqueue(clone_request("b", 10)).unwrap();
    let mut budget = CloneQueueWorkLimit::new(1_000);
    match scheduler.poll_next(at(1_001), &true, &mut budget, false).unwrap() {
        CloneScheduleDecision::Granted { ticket, request, permit } => {
            assert_eq!(ticket, small);
            assert_eq!(request.cost.fair_service_units, 10);
            permit.release();
        }
        _ => panic!("the small request is served first"),
    }
    assert!(matches!(
        scheduler.poll_next(at(1_002), &true, &mut budget, false),
        Ok(CloneScheduleDecision::Waiting { queued: 1 })
    ));
    match scheduler.poll_next(at(1_003), &true, &mut budget, false).unwrap() {
        CloneScheduleDecision::Granted { ticket, .. } => assert_eq!(ticket, large),
        _ => panic!("enough credit has been given"),
    }
    assert_eq!(scheduler.queued(), 0);
}

#[test]
fn clone_credit_is_given_once_per_time() {
    let mut scheduler = CloneAdmissionScheduler::new(controller(Vec::new()), clone_limits()).unwrap();
    let large = scheduler.enqueue(clone_request("a", 15)).unwrap();
    let mut budget = CloneQueueWorkLimit::new(1_000);
    for _ in 0..3 {
        assert!(matches!(
            scheduler.poll_next(at(1_001), &true, &mut budget, false),
            Ok(CloneScheduleDecision::Waiting { queued: 1 })
        ));
    }
    match scheduler.poll_next(at(1_002), &true, &mut budget, false).unwrap() {
        CloneScheduleDecision::Granted { ticket, .. } => assert_eq!(ticket, large),
        _ => panic!("enough credit has been given"),
    }
}

#[test]
fn unserved_clone_offer_is_free() {
    let mut scheduler =
        CloneAdmissionScheduler::new(controller(vec![0, 1]), clone_limits()).unwrap();
    let ticket = scheduler.enqueue(clone_request("a", 10)).unwrap();
    let mut budget = CloneQueueWorkLimit::new(1_000);
    assert!(matches!(
        scheduler.poll_next(at(1_001), &true, &mut budget, false),
        Ok(CloneScheduleDecision::Waiting { queued: 1 })
    ));
    match scheduler.poll_next(at(1_001), &true, &mut budget, false).unwrap() {
        CloneScheduleDecision::Granted { ticket: granted, .. } => assert_eq!(granted, ticket),
        _ => panic!("the units were given back"),
    }
}

#[test]
fn clone_rounds_reject_and_expire() {
    let mut scheduler = CloneAdmissionScheduler::new(controller(vec![2]), clone_limits()).unwrap();
    let ticket = scheduler.enqueue(clone_request("a", 1)).unwrap();
    let mut budget = CloneQueueWorkLimit::new(1_000);
    match scheduler.poll_next(at(1_001), &true, &mut budget, false).unwrap() {
        CloneScheduleDecision::Rejected { ticket: removed, reason } => {
            assert_eq!(removed, ticket);
            assert_eq!(reason, AdmissionRejectReason::BackendOverloaded);
        }
        _ => panic!("the controller rejects"),
    }
    let late = scheduler.enqueue(clone_request("a", 1)).unwrap();
    match scheduler.poll_next(at(999_950), &true, &mut budget, false).unwrap() {
        CloneScheduleDecision::Rejected { ticket: removed, reason } => {
            assert_eq!(removed, late);
            assert_eq!(reason, AdmissionRejectReason::Deadline);
        }
        _ => panic!("the request cannot finish"),
    }
    assert!(matches!(
        scheduler.poll_next(at(5), &true, &mut budget, false).err(),
        Some(CloneAdmissionError::NonMonotonicTime)
    ));
    assert!(matches!(
        scheduler.poll_next(at(999_951), &true, &mut budget, true).err(),
        Some(CloneAdmissionError::Cancelled)
    ));
    assert!(matches!(
        scheduler.poll_next(at(999_951), &false, &mut budget, false).err(),
        Some(CloneAdmissionError::Admission(_))
    ));
}

#[test]
fn exhausted_scan_leaves_clones_waiting() {
    let mut state = CloneQueueState::new(clone_limits()).unwrap();
    state.enqueue(clone_request("a", 1)).unwrap();
    let mut none = CloneQueueWorkLimit::new(0);
    assert!(matches!(state.select(at(1_001), &mut none), Err(CloneAdmissionError::WorkBudget)));
    assert_eq!(state.queued(), 1);
    let mut some = CloneQueueWorkLimit::new(100);
    let offer = match state.select(at(1_002), &mut some).unwrap() {
        CloneSelection::Offer { offer, .. } => offer,
        _ => panic!("one request is eligible"),
    };
    assert!(state.cancel(offer.ticket));
    assert!(matches!(state.finish_granted_dispatch(&offer), GrantFinalization::Cancelled));
}

#[test]
fn an_exhausted_clone_poll_keeps_the_queue_and_its_credit() {
    let mut scheduler =
        CloneAdmissionScheduler::new(controller(Vec::new()), clone_limits()).unwrap();
    scheduler.enqueue(clone_request("a", 1)).unwrap();
    scheduler.enqueue(clone_request("b", 1)).unwrap();
    let refused = scheduler.poll_next(at(1_001), &true, &mut CloneQueueWorkLimit::new(0), false);
    assert!(matches!(refused.err(), Some(CloneAdmissionError::WorkBudget)));
    assert_eq!(scheduler.queued(), 2);
    let mut enough = CloneQueueWorkLimit::new(6);
    let served = scheduler.poll_next(at(1_001), &true, &mut enough, false).unwrap();
    assert!(matches!(served, CloneScheduleDecision::Granted { .. }));
}

#[test]
fn aborted_clone_releases_and_records() {
    let limits = PackStreamLimits::default();
    let mut sink = BoundedVecPackSink::new(limits).unwrap();
    let mut recorder = CloneMetricsRecorder::new(CloneBackendKind::Memory);
    let report = abort_admitted_clone(
        CloneExecutionPermit::new(7u8),
        &mut sink,
        &mut recorder,
        PackAbortReason::Cancelled,
        CloneOutcome::Cancelled,
    );
    assert_eq!(sink.state(), PackSinkState::Aborted(PackAbortReason::Cancelled));
    assert_eq!(report.outcome, Some(CloneOutcome::Cancelled));
}

fn push_cost(units: u64) -> PushAdmissionCost {
    PushAdmissionCost {
        compressed_bytes: 10,
        inflated_bytes: 20,
        base_bytes: 1,
        metadata_bytes: 2,
        quarantine_bytes: 30,
        validation_work: 5,
        sql_statements: 3,
        sql_rows: 4,
        external_requests: 6,
        external_bytes: 7,
        workers: 1,
        range_concurrency: 1,
        multipart_concurrency: 1,
        fair_service_units: units,
    }
}

fn push_request(tenant: &str, actor: &str, units: u64) -> PushAdmissionRequest {
    PushAdmissionRequest {
        identity: identity(tenant, "tools", actor),
        cost: push_cost(units),
        queued_bytes: 4_096,
        submitted_at: at(1_000),
        deadline: at(1_000_000),
        service_estimate: Duration { nanos: 100 },
        receive_limits: ReceivePackLimits::default(),
    }
}

fn push_limits() -> PushQueueLimits {
    PushQueueLimits {
        max_queued: 10,
        max_queued_bytes: 100_000,
        max_tenant_queued: 8,
        max_tenant_queued_bytes: 80_000,
        max_repository_queued: 6,
        max_repository_queued_bytes: 60_000,
        max_actor_queued: 3,
        max_actor_queued_bytes: 30_000,
        fair_quantum: 50,
        max_deficit: 100,
        aging_interval: Duration { nanos: 1_000_000 },
        aging_credit_units: 1,
        small_push_units: 10,
        max_small_bypass: 2,
        max_workers: 2,
        max_range_concurrency: 2,
        max_multipart_concurrency: 2,
        max_quarantine_bytes: 60,
    }
}

#[test]
fn push_costs_are_weighed() {
    let weights = push_cost(1).weights().unwrap();
    assert_eq!(weights.memory_bytes, 53);
    assert_eq!(weights.io_bytes, 17);
    assert_eq!(weights.cpu_units, 5);
    assert_eq!(weights.sql_units, 7);
    assert_eq!(weights.s3_units, 6);
    let mut huge = push_cost(1);
    huge.inflated_bytes = u64::MAX;
    assert_eq!(huge.weights(), Err(PushAdmissionError::InvalidCost));
    assert_eq!(push_request("a", "ann", 0).validate(), Err(PushAdmissionError::InvalidCost));
    let mut nobody = push_request("a", "ann", 1);
    nobody.identity.actor = String::from(" ");
    assert_eq!(nobody.validate(), Err(PushAdmissionError::InvalidRequest));
    let shared = push_request("a", "ann", 1).shared_request().unwrap();
    assert_eq!(shared.class, ResourceClass::Push);
}

#[test]
fn push_queue_is_bounded_by_actor() {
    let mut scheduler = PushAdmissionScheduler::new(controller(Vec::new()), push_limits()).unwrap();
    for _ in 0..3 {
        scheduler.enqueue(push_request("a", "ann", 1)).unwrap();
    }
    assert_eq!(
        scheduler.enqueue(push_request("a", "ann", 1)),
        Err(PushAdmissionError::QueueFull)
    );
    let other = scheduler.enqueue(push_request("a", "bob", 1)).unwrap();
    assert!(scheduler.cancel(other));
    assert!(!scheduler.cancel(other));
    let snapshot = scheduler.snapshot();
    assert_eq!(snapshot.queued, 3);
    assert_eq!(snapshot.queued_bytes, 3 * 4_096);
    assert_eq!(snapshot.cancellations, 1);
}

#[test]
fn push_permit_walks_through_its_phases() {
    let mut scheduler = PushAdmissionScheduler::new(controller(Vec::new()), push_limits()).unwrap();
    scheduler.enqueue(push_request("a", "ann", 1)).unwrap();
    let mut budget = PushQueueWorkLimit::new(1_000);
    let mut permit = match scheduler.poll_next(1, at(1_001), &true, &mut budget, false).unwrap() {
        PushScheduleDecision::Granted { permit, .. } => permit,
        _ => panic!("capacity is free"),
    };
    assert_eq!(scheduler.snapshot().active, 1);
    assert_eq!(scheduler.snapshot().active_quarantine_bytes, 30);
    let deadline = at(1_000_000);
    let state = scheduler.state_mut();
    assert_eq!(
        permit.checkpoint(state, PushExecutionPhase::Validation, at(1_002), deadline, false),
        Err(PushAdmissionError::InvalidPhase)
    );
    assert_eq!(
        permit.checkpoint(state, PushExecutionPhase::Input, at(1_002), deadline, true),
        Err(PushAdmissionError::Cancelled)
    );
    assert_eq!(
        permit.checkpoint(state, PushExecutionPhase::Input, at(1_000_000), deadline, false),
        Err(PushAdmissionError::Deadline)
    );
    assert_eq!(
        permit.checkpoint(state, PushExecutionPhase::Input, at(1_002), at(5), false),
        Err(PushAdmissionError::NonMonotonicObservation)
    );
    for phase in [
        PushExecutionPhase::Input,
        PushExecutionPhase::Quarantine,
        PushExecutionPhase::Validation,
        PushExecutionPhase::Promotion,
        PushExecutionPhase::Publication,
    ] {
        permit.checkpoint(state, phase, at(1_003), deadline, false).unwrap();
    }
    permit
        .checkpoint(state, PushExecutionPhase::Published, at(2_000_000), deadline, true)
        .unwrap();
    assert_eq!(permit.phase(), PushExecutionPhase::Published);
    permit.finish(state, PushExecutionOutcome::Published).unwrap();
    let snapshot = scheduler.snapshot();
    assert_eq!((snapshot.active, snapshot.published, snapshot.completed), (0, 1, 1));
    assert_eq!(snapshot.active_workers, 0);
    assert_eq!(snapshot.active_quarantine_bytes, 0);
}

#[test]
fn push_outcome_must_fit_its_phase() {
    let mut scheduler = PushAdmissionScheduler::new(controller(Vec::new()), push_limits()).unwrap();
    scheduler.enqueue(push_request("a", "ann", 1)).unwrap();
    scheduler.enqueue(push_request("a", "ann", 1)).unwrap();
    let mut budget = PushQueueWorkLimit::new(1_000);
    let mut permits = Vec::new();
    for round in 1..3 {
        match scheduler.poll_next(round, at(1_001), &true, &mut budget, false).unwrap() {
            PushScheduleDecision::Granted { permit, .. } => permits.push(permit),
            _ => panic!("capacity is free"),
        }
    }
    scheduler.enqueue(push_request("b", "bob", 1)).unwrap();
    assert!(matches!(
        scheduler.poll_next(3, at(1_001), &true, &mut budget, false),
        Ok(PushScheduleDecision::Waiting { queued: 1 })
    ));
    let state = scheduler.state_mut();
    assert_eq!(
        permits.pop().unwrap().finish(state, PushExecutionOutcome::Published),
        Err(PushAdmissionError::InvalidPhase)
    );
    permits.pop().unwrap().finish(state, PushExecutionOutcome::Rejected).unwrap();
    let snapshot = scheduler.snapshot();
    assert_eq!((snapshot.aborted, snapshot.rejected_terminal, snapshot.active), (1, 1, 0));
}

#[test]
fn small_pushes_bypass_a_large_one_twice() {
    let mut scheduler = PushAdmissionScheduler::new(controller(Vec::new()), push_limits()).unwrap();
    let mut budget = PushQueueWorkLimit::new(10_000);
    let mut served = Vec::new();
    for actor in ["u1", "u2", "u3"] {
        scheduler.enqueue(push_request("a", actor, 1)).unwrap();
    }
    let large = scheduler.enqueue(push_request("b", "big", 40)).unwrap();
    for round in 1..4 {
        match scheduler.poll_next(round, at(1_001), &true, &mut budget, false).unwrap() {
            PushScheduleDecision::Granted { ticket, permit, .. } => {
                served.push(ticket);
                permit.abort(scheduler.state_mut());
            }
            _ => panic!("capacity is free"),
        }
    }
    assert_eq!(served[2], large);
}

#[test]
fn push_rounds_do_not_go_back() {
    let mut scheduler = PushAdmissionScheduler::new(controller(vec![2]), push_limits()).unwrap();
    let ticket = scheduler.enqueue(push_request("a", "ann", 1)).unwrap();
    let mut budget = PushQueueWorkLimit::new(1_000);
    assert!(matches!(
        scheduler.poll_next(0, at(1_001), &true, &mut budget, false).err(),
        Some(PushAdmissionError::NonMonotonicObservation)
    ));
    match scheduler.poll_next(5, at(1_001), &true, &mut budget, false).unwrap() {
        PushScheduleDecision::Rejected { ticket: removed, rejection } => {
            assert_eq!(removed, ticket);
            assert_eq!(rejection.reason, PushAdmissionRejectReason::LoadShed);
        }
        _ => panic!("the controller rejects"),
    }
    assert!(matches!(
        scheduler.poll_next(4, at(1_002), &true, &mut budget, false).err(),
        Some(PushAdmissionError::NonMonotonicObservation)
    ));
    assert_eq!(deadline_rejection().reason, PushAdmissionRejectReason::Deadline);
    let retry = RetryGuidance::DoNotRetry;
    assert_eq!(
        map_rejection(AdmissionRejectReason::AllocationPressure, retry).reason,
        PushAdmissionRejectReason::Allocation
    );
    assert!(valid_phase_transition(PushExecutionPhase::Admitted, PushExecutionPhase::Input));
    assert!(!valid_phase_transition(PushExecutionPhase::Input, PushExecutionPhase::Admitted));
}

#[test]
fn backend_usage_adds_and_subtracts() {
    let none = BackendUsage { workers: 0, ranges: 0, multipart: 0, quarantine_bytes: 0 };
    let one = none.checked_add(push_cost(1)).unwrap();
    assert_eq!((one.workers, one.quarantine_bytes), (1, 30));
    assert!(one.fits(push_limits()));
    assert_eq!(one.checked_sub(push_cost(1)), Some(none));
    assert_eq!(none.checked_sub(push_cost(1)), None);
    let three = one.checked_add(push_cost(1)).unwrap().checked_add(push_cost(1)).unwrap();
    assert!(!three.fits(push_limits()));
}

#[test]
fn open_admission_grants_what_it_issued() {
    let mut scheduler = CloneAdmissionScheduler::new(OpenAdmission::new(), clone_limits()).unwrap();
    let first = scheduler.enqueue(clone_request("a", 1)).unwrap();
    let mut budget = CloneQueueWorkLimit::new(1_000);
    match scheduler.poll_next(at(1_001), &(), &mut budget, false).unwrap() {
        CloneScheduleDecision::Granted { ticket, .. } => assert_eq!(ticket, first),
        _ => panic!("an open controller grants at once"),
    }

    let mut controller = OpenAdmission::new();
    assert!(matches!(
        controller.poll(AdmissionTicket { value: 0 }, at(0), &()),
        AdmissionDecision::Rejected {
            reason: AdmissionRejectReason::UnknownTicket,
            retry: RetryGuidance::DoNotRetry,
        }
    ));
    assert!(!controller.cancel(AdmissionTicket { value: 0 }));
}
