use grit_protocol::clock::Timestamp;
use grit_protocol::memory_pack_promotion::MemoryPackPromotionReceipt;
use grit_protocol::object::{HashAlgo, ObjectId, RepositoryId, TenantId};
use grit_protocol::pack_promotion::PromotionEvidence;
use grit_protocol::pg_pack_promotion::PgPackPromotionReceipt;
use grit_protocol::push_atomic_publication::{
    accept_observation, command_reflog, publish_prepared_push, structural_prerequisite,
    PolicyActor, PolicyDecision, PolicyFailure, PushAtomicPublicationBackend,
    PushAtomicPublicationControl, PushAtomicPublicationError, PushAtomicPublicationLimits,
    PushAtomicPublicationObservation, PushAtomicPublicationWorkLimit, PushPolicy,
    PushPolicyContext, PushPromotionReceipt, PushPublicationAudit, PushPublicationBackendError,
    PushPublicationCommandOutcome, PushPublicationCommandStatus, PushPublicationRejection,
    PushPublicationReport, PushPublicationTransaction, PushReportError, PushReportStatusVersion,
    PushStructuralPublicationPrerequisite, RefUpdatePolicyContext,
};
use grit_protocol::push_prepared::{
    PreparedAncestryContext, PreparedCommand, PreparedCommandGroup, PreparedPush,
    PreparedPushAuditSummary, PreparedQuarantine, PushCommandKind,
};
use grit_protocol::push_quarantine::{QuarantineId, QuarantineIndexAttestation, QuarantineManifest};

fn oid(byte: u8) -> ObjectId {
    ObjectId::from_bytes(&[byte; 20]).unwrap()
}

fn at(unix_nanos: i128) -> Timestamp {
    Timestamp { unix_nanos }
}

fn tenant() -> TenantId {
    TenantId { value: String::from("acme") }
}

fn repository() -> RepositoryId {
    RepositoryId { value: String::from("tools") }
}

fn command(ordinal: u32, refname: &str, kind: PushCommandKind) -> PreparedCommand {
    let null = ObjectId::null(HashAlgo::Sha1);
    PreparedCommand {
        ordinal,
        refname: String::from(refname),
        old_oid: if kind == PushCommandKind::Create { null } else { oid(1) },
        new_oid: if kind == PushCommandKind::Delete { null } else { oid(2) },
        kind,
        expected: if kind == PushCommandKind::Create { None } else { Some(oid(1)) },
    }
}

fn prepared(with_pack: bool) -> PreparedPush {
    PreparedPush {
        tenant: tenant(),
        repository: repository(),
        hash_algo: HashAlgo::Sha1,
        repository_generation: 4,
        fingerprint: oid(9),
        quarantine: PreparedQuarantine {
            id: QuarantineId { value: 7 },
            generation: 3,
            manifest: QuarantineManifest {
                hash_algo: HashAlgo::Sha1,
                pack_bytes: 100,
                object_count: 2,
                pack_checksum: if with_pack { Some(oid(5)) } else { None },
                metadata_bytes: 0,
                self_contained: true,
                index_checksum: if with_pack { Some(oid(6)) } else { None },
            },
            attestation: QuarantineIndexAttestation::validated(oid(5), oid(6), 2, true),
        },
        pack_index: Vec::new(),
        commands: vec![
            command(0, "refs/heads/main", PushCommandKind::Update),
            command(1, "refs/heads/new", PushCommandKind::Create),
            command(2, "refs/heads/old", PushCommandKind::Delete),
        ],
        ancestry: vec![
            PreparedAncestryContext { command_ordinal: 0, fast_forward: true },
            PreparedAncestryContext { command_ordinal: 1, fast_forward: true },
            PreparedAncestryContext { command_ordinal: 2, fast_forward: false },
        ],
        pushed_commits: vec![oid(2)],
        groups: vec![PreparedCommandGroup { atomic: false }; 3],
        atomic: false,
        structural_objects: 2,
        audit_summary: PreparedPushAuditSummary { commands: 3, objects: 2, pack_bytes: 100 },
    }
}

fn evidence() -> PromotionEvidence {
    PromotionEvidence {
        tenant: tenant(),
        repository: repository(),
        quarantine_id: QuarantineId { value: 7 },
        quarantine_generation: 3,
        repository_generation: 4,
        pack_checksum: oid(5),
        index_checksum: oid(6),
        prepared_fingerprint: oid(9),
        object_count: 2,
        size_bytes: 100,
        deduplicated: false,
    }
}

fn actor() -> PolicyActor {
    PolicyActor { id: String::from("u-1"), reflog_identity: String::from("Ann <ann@example.org>") }
}

fn limits() -> PushAtomicPublicationLimits {
    PushAtomicPublicationLimits { max_commands: 8, started_at: at(1_000), deadline: at(2_000) }
}

struct Clock {
    now: i128,
    cancel_after: u32,
}

impl PushAtomicPublicationControl for Clock {
    fn observe(&mut self) -> PushAtomicPublicationObservation {
        self.now += 1;
        let cancelled = self.cancel_after == 0;
        self.cancel_after = self.cancel_after.saturating_sub(1);
        PushAtomicPublicationObservation { observed_at: at(self.now), cancelled }
    }
}

fn clock() -> Clock {
    Clock { now: 1_000, cancel_after: u32::MAX }
}

struct Rules {
    whole: Result<PolicyDecision, PolicyFailure>,
    denied: Vec<String>,
    undecided: Vec<String>,
    asked: Vec<String>,
}

impl PushPolicy for Rules {
    fn pre_receive(
        &mut self,
        context: &PushPolicyContext,
    ) -> Result<PolicyDecision, PolicyFailure> {
        self.asked.push(format!("push of {}", context.updates.len()));
        self.whole
    }

    fn update(
        &mut self,
        context: &RefUpdatePolicyContext,
    ) -> Result<PolicyDecision, PolicyFailure> {
        self.asked.push(context.update.refname.clone());
        if self.undecided.contains(&context.update.refname) {
            Err(PolicyFailure)
        } else if self.denied.contains(&context.update.refname) {
            Ok(PolicyDecision::Deny)
        } else {
            Ok(PolicyDecision::Allow)
        }
    }
}

fn rules() -> Rules {
    Rules {
        whole: Ok(PolicyDecision::Allow),
        denied: Vec::new(),
        undecided: Vec::new(),
        asked: Vec::new(),
    }
}

struct Backend {
    transactions: Vec<PushPublicationTransaction>,
    rejections: Vec<(PushPublicationAudit, PushPublicationRejection)>,
    fails: bool,
}

impl PushAtomicPublicationBackend for Backend {
    fn publish_transaction(
        &mut self,
        transaction: PushPublicationTransaction,
    ) -> Result<PushPublicationReport, PushPublicationBackendError> {
        if self.fails {
            return Err(PushPublicationBackendError);
        }
        let mut statuses = Vec::new();
        for command in &transaction.commands {
            statuses.push(PushPublicationCommandStatus {
                ordinal: command.ordinal,
                refname: command.refname.clone(),
                kind: command.kind,
                outcome: if command.policy_allowed {
                    PushPublicationCommandOutcome::Applied
                } else {
                    PushPublicationCommandOutcome::Rejected(PushPublicationRejection::Policy)
                },
            });
        }
        let report = PushPublicationReport {
            prepared_fingerprint: transaction.prepared_fingerprint,
            repository_generation: transaction.repository_generation + 1,
            statuses,
            structural: transaction.structural,
        };
        self.transactions.push(transaction);
        Ok(report)
    }

    fn record_rejection(
        &mut self,
        audit: PushPublicationAudit,
        reason: PushPublicationRejection,
    ) -> Result<(), PushPublicationBackendError> {
        if self.fails {
            return Err(PushPublicationBackendError);
        }
        self.rejections.push((audit, reason));
        Ok(())
    }
}

fn backend() -> Backend {
    Backend { transactions: Vec::new(), rejections: Vec::new(), fails: false }
}

fn publish(
    backend: &mut Backend,
    push: &PreparedPush,
    receipt: Option<&MemoryPackPromotionReceipt>,
    policy: &mut Rules,
    limits: PushAtomicPublicationLimits,
    units: u64,
    control: &mut Clock,
) -> Result<PushPublicationReport, PushAtomicPublicationError> {
    let mut work = PushAtomicPublicationWorkLimit::new(units);
    publish_prepared_push(
        backend,
        push,
        receipt,
        actor(),
        at(1_500),
        policy,
        limits,
        &mut work,
        control,
    )
}

#[test]
fn publication_carries_every_policy_answer() {
    let receipt = MemoryPackPromotionReceipt::new(evidence());
    let mut store = backend();
    let mut policy = rules();
    policy.denied.push(String::from("refs/heads/new"));
    let report = publish(
        &mut store,
        &prepared(true),
        Some(&receipt),
        &mut policy,
        limits(),
        1_000,
        &mut clock(),
    )
    .unwrap();
    assert_eq!(policy.asked, vec!["push of 3", "refs/heads/main", "refs/heads/new", "refs/heads/old"]);
    let sent = &store.transactions[0];
    assert_eq!(sent.commands.len(), 3);
    assert!(sent.commands[0].policy_allowed);
    assert!(!sent.commands[1].policy_allowed);
    assert!(sent.commands[2].policy_allowed);
    assert_eq!(sent.commands[0].expected, Some(oid(1)));
    assert_eq!(sent.commands[0].new_oid, Some(oid(2)));
    assert_eq!(sent.commands[1].expected, None);
    assert_eq!(sent.commands[2].new_oid, None);
    assert!(!sent.commands[2].ancestry.fast_forward);
    assert_eq!(sent.reflog_identity, "Ann <ann@example.org>");
    assert_eq!(sent.audit.actor_id, "u-1");
    assert_eq!(sent.repository_generation, 4);
    assert_eq!(sent.promotion.as_ref().unwrap().pack_checksum, oid(5));
    assert_eq!(
        sent.structural,
        PushStructuralPublicationPrerequisite::DeferredCanonicalIndex { objects: 2 }
    );
    assert!(report.any_applied());
    assert!(store.rejections.is_empty());
}

#[test]
fn denied_push_asks_no_update_policy() {
    let receipt = MemoryPackPromotionReceipt::new(evidence());
    let mut store = backend();
    let mut policy = rules();
    policy.whole = Ok(PolicyDecision::Deny);
    let report = publish(
        &mut store,
        &prepared(true),
        Some(&receipt),
        &mut policy,
        limits(),
        1_000,
        &mut clock(),
    )
    .unwrap();
    assert_eq!(policy.asked, vec!["push of 3"]);
    assert!(!report.any_applied());
    assert!(store.transactions[0].commands.iter().all(|command| !command.policy_allowed));
}

#[test]
fn undecided_policy_is_recorded_and_nothing_is_published() {
    let receipt = MemoryPackPromotionReceipt::new(evidence());
    let mut store = backend();
    let mut policy = rules();
    policy.undecided.push(String::from("refs/heads/new"));
    let error = publish(
        &mut store,
        &prepared(true),
        Some(&receipt),
        &mut policy,
        limits(),
        1_000,
        &mut clock(),
    )
    .unwrap_err();
    assert_eq!(error, PushAtomicPublicationError::Policy);
    assert!(store.transactions.is_empty());
    assert_eq!(store.rejections.len(), 1);
    assert_eq!(store.rejections[0].1, PushPublicationRejection::Policy);
    assert_eq!(store.rejections[0].0.prepared_fingerprint, oid(9));
    assert_eq!(policy.asked.len(), 3);

    let mut broken = backend();
    broken.fails = true;
    let mut silent = rules();
    silent.whole = Err(PolicyFailure);
    let error = publish(
        &mut broken,
        &prepared(true),
        Some(&receipt),
        &mut silent,
        limits(),
        1_000,
        &mut clock(),
    )
    .unwrap_err();
    assert_eq!(error, PushAtomicPublicationError::Backend);
}

#[test]
fn publication_bindings_are_checked_before_any_policy() {
    let receipt = MemoryPackPromotionReceipt::new(evidence());
    let mut wrong = evidence();
    wrong.size_bytes = 101;
    let wrong = MemoryPackPromotionReceipt::new(wrong);
    let mut empty = prepared(true);
    empty.commands.clear();
    let mut grouped = prepared(true);
    grouped.groups.pop();
    let mut mixed = prepared(true);
    mixed.groups[1].atomic = true;
    let mut narrow = limits();
    narrow.max_commands = 2;
    let attempts: Vec<(PreparedPush, Option<&MemoryPackPromotionReceipt>, PushAtomicPublicationLimits)> = vec![
        (prepared(true), None, limits()),
        (prepared(false), Some(&receipt), limits()),
        (prepared(true), Some(&wrong), limits()),
        (empty, Some(&receipt), limits()),
        (grouped, Some(&receipt), limits()),
        (mixed, Some(&receipt), limits()),
        (prepared(true), Some(&receipt), narrow),
    ];
    for (push, evidence, bounds) in attempts {
        let mut store = backend();
        let mut policy = rules();
        let error =
            publish(&mut store, &push, evidence, &mut policy, bounds, 1_000, &mut clock())
                .unwrap_err();
        assert_eq!(error, PushAtomicPublicationError::Binding);
        assert!(policy.asked.is_empty());
        assert!(store.transactions.is_empty());
    }
}

#[test]
fn push_without_pack_needs_no_receipt() {
    let mut store = backend();
    let mut policy = rules();
    let mut push = prepared(false);
    push.structural_objects = 0;
    push.atomic = true;
    push.groups = vec![PreparedCommandGroup { atomic: true }];
    publish(&mut store, &push, None, &mut policy, limits(), 1_000, &mut clock()).unwrap();
    assert!(store.transactions[0].promotion.is_none());
    assert!(store.transactions[0].atomic);
    assert_eq!(
        store.transactions[0].structural,
        PushStructuralPublicationPrerequisite::Satisfied
    );
}

#[test]
fn missing_ancestry_stops_publication() {
    let mut store = backend();
    let mut policy = rules();
    let mut push = prepared(false);
    push.ancestry[1].command_ordinal = 5;
    let error =
        publish(&mut store, &push, None, &mut policy, limits(), 1_000, &mut clock()).unwrap_err();
    assert_eq!(error, PushAtomicPublicationError::Binding);
    assert_eq!(policy.asked, vec!["push of 3", "refs/heads/main"]);
    assert!(store.transactions.is_empty());
}

#[test]
fn publication_stops_for_budget_cancellation_and_deadline() {
    let mut store = backend();
    assert_eq!(
        publish(&mut store, &prepared(false), None, &mut rules(), limits(), 3, &mut clock())
            .unwrap_err(),
        PushAtomicPublicationError::WorkBudget
    );
    let mut control = clock();
    control.cancel_after = 2;
    assert_eq!(
        publish(&mut store, &prepared(false), None, &mut rules(), limits(), 1_000, &mut control)
            .unwrap_err(),
        PushAtomicPublicationError::Cancelled
    );
    let mut late = Clock { now: 1_999, cancel_after: u32::MAX };
    assert_eq!(
        publish(&mut store, &prepared(false), None, &mut rules(), limits(), 1_000, &mut late)
            .unwrap_err(),
        PushAtomicPublicationError::Deadline
    );
    let mut bounds = limits();
    bounds.deadline = bounds.started_at;
    assert_eq!(
        publish(&mut store, &prepared(false), None, &mut rules(), bounds, 1_000, &mut clock())
            .unwrap_err(),
        PushAtomicPublicationError::InvalidLimits
    );
    store.fails = true;
    assert_eq!(
        publish(&mut store, &prepared(false), None, &mut rules(), limits(), 1_000, &mut clock())
            .unwrap_err(),
        PushAtomicPublicationError::Backend
    );
    assert!(store.transactions.is_empty());
}

#[test]
fn publication_work_is_charged_exactly() {
    let mut store = backend();
    let mut work = PushAtomicPublicationWorkLimit::new(20);
    let receipt: Option<&MemoryPackPromotionReceipt> = None;
    publish_prepared_push(
        &mut store,
        &prepared(false),
        receipt,
        actor(),
        at(1_500),
        &mut rules(),
        limits(),
        &mut work,
        &mut clock(),
    )
    .unwrap();
    assert_eq!(work.remaining(), 20 - (1 + 1 + 3 * 2 + 3));
}

#[test]
fn publication_limits_have_a_ceiling() {
    let mut bounds = limits();
    assert!(bounds.validate().is_ok());
    bounds.max_commands = 0;
    assert_eq!(bounds.validate(), Err(PushAtomicPublicationError::InvalidLimits));
    bounds.max_commands = usize::MAX;
    assert_eq!(bounds.validate(), Err(PushAtomicPublicationError::InvalidLimits));
    let mut long = limits();
    long.deadline = at(1_000_000_000_000_000_000);
    assert_eq!(long.validate(), Err(PushAtomicPublicationError::InvalidLimits));
}

#[test]
fn publication_observation_never_goes_back() {
    let mut last = at(1_200);
    let earlier = PushAtomicPublicationObservation { observed_at: at(1_100), cancelled: true };
    assert_eq!(
        accept_observation(earlier, &limits(), &mut last),
        Err(PushAtomicPublicationError::Deadline)
    );
    assert_eq!(last, at(1_200));
    let later = PushAtomicPublicationObservation { observed_at: at(1_300), cancelled: true };
    assert_eq!(
        accept_observation(later, &limits(), &mut last),
        Err(PushAtomicPublicationError::Cancelled)
    );
    assert_eq!(last, at(1_300));
}

#[test]
fn receipts_of_both_backends_bind_alike() {
    let memory = MemoryPackPromotionReceipt::new(evidence()).publication_binding();
    let database = PgPackPromotionReceipt::new(evidence()).publication_binding();
    assert_eq!(memory.tenant, database.tenant);
    assert_eq!(memory.pack_checksum, oid(5));
    assert_eq!(database.index_checksum, oid(6));
    assert_eq!(memory.size_bytes, database.size_bytes);
    assert!(!database.deduplicated);
}

fn status(refname: &str, outcome: PushPublicationCommandOutcome) -> PushPublicationCommandStatus {
    PushPublicationCommandStatus {
        ordinal: 0,
        refname: String::from(refname),
        kind: PushCommandKind::Update,
        outcome,
    }
}

fn report(statuses: Vec<PushPublicationCommandStatus>) -> PushPublicationReport {
    PushPublicationReport {
        prepared_fingerprint: oid(9),
        repository_generation: 5,
        statuses,
        structural: PushStructuralPublicationPrerequisite::Satisfied,
    }
}

#[test]
fn report_has_exact_packets() {
    let report = report(vec![
        status("refs/heads/main", PushPublicationCommandOutcome::Applied),
        status(
            "refs/heads/dev",
            PushPublicationCommandOutcome::Rejected(PushPublicationRejection::NonFastForward),
        ),
    ]);
    let expected =
        b"000eunpack ok\n0017ok refs/heads/main\n0027ng refs/heads/dev non-fast-forward\n0000";
    let first = report.to_pkt_lines(PushReportStatusVersion::V1, &vec![true, true]).unwrap();
    let second = report.to_pkt_lines(PushReportStatusVersion::V2, &vec![true, true]).unwrap();
    assert_eq!(first, expected.to_vec());
    assert_eq!(first, second);
}

#[test]
fn rejections_have_wire_messages() {
    let messages = vec![
        (PushPublicationRejection::Policy, "policy rejected"),
        (PushPublicationRejection::StaleGeneration, "stale repository generation"),
        (PushPublicationRejection::RefConflict, "reference changed"),
        (PushPublicationRejection::PromotionMissing, "promoted pack unavailable"),
        (PushPublicationRejection::NonFastForward, "non-fast-forward"),
        (PushPublicationRejection::AtomicAborted, "atomic push failed"),
    ];
    for (reason, message) in messages {
        assert_eq!(reason.wire_message(), message);
    }
}

#[test]
fn report_refuses_bad_names_and_long_lines() {
    let applied = PushPublicationCommandOutcome::Applied;
    let outside = report(vec![status("heads/main", applied)]);
    assert_eq!(
        outside.to_pkt_lines(PushReportStatusVersion::V1, &vec![true]),
        Err(PushReportError::InvalidRefName)
    );
    let malformed = report(vec![status("refs/heads/..", applied)]);
    assert_eq!(
        malformed.to_pkt_lines(PushReportStatusVersion::V1, &vec![false]),
        Err(PushReportError::InvalidRefName)
    );
    let longest = format!("refs/{}", "a".repeat(65_516 - 1 - 3 - 5));
    let fits = report(vec![status(&longest, applied)]);
    let bytes = fits.to_pkt_lines(PushReportStatusVersion::V1, &vec![true]).unwrap();
    assert_eq!(&bytes[14..18], b"fff0");
    assert_eq!(bytes.len(), 14 + 65_520 + 4);
    let too_long = report(vec![status(&format!("{}a", longest), applied)]);
    assert_eq!(
        too_long.to_pkt_lines(PushReportStatusVersion::V1, &vec![true]),
        Err(PushReportError::LineTooLong)
    );
}

#[test]
fn reflog_spells_absent_objects_as_null() {
    let mut store = backend();
    publish(&mut store, &prepared(false), None, &mut rules(), limits(), 1_000, &mut clock())
        .unwrap();
    let commands = &store.transactions[0].commands;
    let who = String::from("Ann");
    let update = command_reflog(&commands[0], HashAlgo::Sha1, &who, at(7));
    assert_eq!((update.old_oid, update.new_oid), (oid(1), oid(2)));
    assert_eq!(update.message, "push update");
    let create = command_reflog(&commands[1], HashAlgo::Sha1, &who, at(7));
    assert!(create.old_oid.is_zero());
    assert_eq!(create.message, "push create");
    let delete = command_reflog(&commands[2], HashAlgo::Sha1, &who, at(7));
    assert!(delete.new_oid.is_zero());
    assert_eq!(delete.message, "push delete");
    assert_eq!(delete.actor, "Ann");
}

#[test]
fn structural_prerequisite_counts_objects() {
    let mut push = prepared(false);
    assert_eq!(
        structural_prerequisite(&push),
        Ok(PushStructuralPublicationPrerequisite::DeferredCanonicalIndex { objects: 2 })
    );
    push.structural_objects = usize::MAX;
    assert_eq!(structural_prerequisite(&push), Err(PushAtomicPublicationError::Binding));
}
