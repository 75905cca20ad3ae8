use grit_protocol::clock::Duration;
use grit_protocol::clone_metrics::{
    CloneBackendKind, CloneCancellationMetrics, CloneLimitError, CloneLimits, CloneMemoryMetrics,
    CloneMetricsRecorder, CloneOutcome, ClonePhase,
};
use grit_protocol::object::ObjectKind;
use grit_protocol::pack_stream::{
    BoundedVecPackSink, CancellationGate, CancellationProbe, CancellationReport, NeverCancel,
    PackAbortReason, PackCancellationToken, PackChunkSink, PackSinkOperation, PackSinkState,
    PackStreamError, PackStreamLimits, PackStreamReport,
};
use grit_protocol::push_metrics::{
    PushBackendMetrics, PushMemoryMetrics, PushMetricsError, PushMetricsRecorder, PushOutcome,
    PushPhase, PushQuarantineMetrics, ReceivePackLimitError, ReceivePackLimitKind,
    ReceivePackLimits,
};

fn nanos(nanos: u128) -> Duration {
    Duration { nanos }
}

#[test]
fn clone_recorder_adds_up() {
    let mut recorder = CloneMetricsRecorder::new(CloneBackendKind::Postgres);
    assert!(recorder.record_phase(ClonePhase::Negotiation, nanos(5)));
    assert!(!recorder.record_phase(ClonePhase::Negotiation, nanos(6)));
    recorder.record_objects(ObjectKind::Blob, 2, 10, 4);
    recorder.record_objects(ObjectKind::Blob, 1, 5, 2);
    recorder.record_objects(ObjectKind::Tree, u64::MAX, 0, 0);
    recorder.record_cache(1, 2, nanos(3));
    recorder.record_database(4, 50);
    recorder.record_external(1, 2, 3);
    assert!(recorder.record_pack(100, 2, 3));
    assert!(!recorder.record_pack(1, 1, 1));
    let small = CloneMemoryMetrics {
        decoded_bytes: 1,
        delta_base_bytes: 2,
        encoded_bytes: 3,
        response_bytes: 4,
        total_bytes: 10,
    };
    let large = CloneMemoryMetrics { decoded_bytes: 9, ..small };
    recorder.observe_memory(large);
    recorder.observe_memory(small);
    recorder.record_cancellation(CloneCancellationMetrics {
        latency: Some(nanos(8)),
        wasted_backend_bytes: 1,
        wasted_cpu_units: 2,
    });
    let report = recorder.finish(CloneOutcome::Success);
    assert_eq!(report.outcome, Some(CloneOutcome::Success));
    assert_eq!(report.phases.negotiation, Some(nanos(5)));
    assert_eq!(report.objects.blobs.selected, 3);
    assert_eq!(report.objects.blobs.decoded_bytes, 15);
    assert_eq!(report.objects.selected_total(), u64::MAX);
    assert_eq!(report.memory.decoded_bytes, 9);
    assert_eq!(report.pack.output_bytes, 100);
    assert_eq!(report.cache.misses, 2);
    assert_eq!(report.backend_io.database_bytes, 50);
    assert_eq!(report.backend_io.external_range_gets, 2);
    assert_eq!(recorder.finish(CloneOutcome::Rejected).outcome, recorder.snapshot().outcome);
}

#[test]
fn clone_limits_reject_zero_and_excess() {
    assert!(CloneLimits::default().validate().is_ok());
    assert!(CloneLimits::hard_max().validate().is_ok());
    let mut zero = CloneLimits::default();
    zero.read_workers = 0;
    assert_eq!(zero.validate(), Err(CloneLimitError::Zero));
    assert_eq!(zero.clamped(), Err(CloneLimitError::Zero));
    let mut above = CloneLimits::default();
    above.max_wants = usize::MAX;
    assert_eq!(above.validate(), Err(CloneLimitError::ExceedsHardMaximum));
    assert_eq!(above.clamped().unwrap().max_wants, CloneLimits::hard_max().max_wants);
    let limits = CloneLimits::default();
    assert_eq!(limits.validate_request_shape(limits.max_wants, limits.max_haves), Ok(()));
    assert_eq!(
        limits.validate_request_shape(limits.max_wants + 1, 0),
        Err(CloneLimitError::RequestShape)
    );
}

#[test]
fn receive_limits_name_what_is_wrong() {
    assert!(ReceivePackLimits::default().validate().is_ok());
    assert!(ReceivePackLimits::hard_max().validate().is_ok());
    let mut zero = ReceivePackLimits::default();
    zero.max_objects = 0;
    assert_eq!(
        zero.validate(),
        Err(ReceivePackLimitError::Zero(ReceivePackLimitKind::Objects))
    );
    let mut above = ReceivePackLimits::default();
    above.max_delta_depth = u32::MAX;
    assert_eq!(
        above.validate(),
        Err(ReceivePackLimitError::ExceedsHardMaximum(ReceivePackLimitKind::DeltaDepth))
    );
    let mut crossed = ReceivePackLimits::default();
    crossed.max_wanted_objects = crossed.max_commands + 1;
    assert!(crossed.validate().is_err());
}

#[test]
fn receive_limits_bound_requests() {
    let limits = ReceivePackLimits::default();
    assert_eq!(limits.validate_request(100, 1, 1, 1, 1, 1, 50), Ok(()));
    assert_eq!(
        limits.validate_request(100, limits.max_commands + 1, 1, 1, 1, 1, 50),
        Err(ReceivePackLimitError::Exceeded(ReceivePackLimitKind::Commands))
    );
    assert_eq!(
        limits.validate_pack_totals(1, limits.max_object_bytes + 1, 1),
        Err(ReceivePackLimitError::Exceeded(ReceivePackLimitKind::ObjectBytes))
    );
    assert_eq!(limits.validate_delta(10, 10, 1), Ok(()));
    assert_eq!(
        limits.validate_delta(1, limits.max_delta_expansion_ratio + 1, 1),
        Err(ReceivePackLimitError::Exceeded(ReceivePackLimitKind::DeltaExpansionRatio))
    );
    assert_eq!(
        limits.validate_delta(1, 1, limits.max_delta_depth + 1),
        Err(ReceivePackLimitError::Exceeded(ReceivePackLimitKind::DeltaDepth))
    );
    assert_eq!(
        limits.validate_duration(Duration { nanos: limits.max_duration.nanos + 1 }),
        Err(ReceivePackLimitError::Exceeded(ReceivePackLimitKind::Duration))
    );
    assert_eq!(
        limits.validate_bytes_in_flight(limits.bytes_in_flight + 1),
        Err(ReceivePackLimitError::Exceeded(ReceivePackLimitKind::BytesInFlight))
    );
    let memory = PushMemoryMetrics {
        structural_bytes: limits.max_structural_memory_bytes + 1,
        prepared_bytes: 0,
        delta_base_bytes: 0,
        metadata_bytes: 0,
        total_bytes: 0,
    };
    assert_eq!(
        limits.validate_memory(memory),
        Err(ReceivePackLimitError::Exceeded(ReceivePackLimitKind::StructuralMemory))
    );
}

fn backend_metrics(value: u64) -> PushBackendMetrics {
    PushBackendMetrics {
        sql_statements: value,
        sql_rows: value,
        sql_transactions: value,
        sql_bytes: value,
        object_reads: value,
        object_writes: value,
        object_bytes: value,
        range_reads: value,
        range_bytes: value,
        external_gets: value,
        external_puts: value,
        external_bytes: value,
    }
}

#[test]
fn push_recorder_is_strict() {
    let mut recorder = PushMetricsRecorder::enabled();
    assert!(recorder.is_enabled());
    recorder.record_input(100, 40).unwrap();
    assert_eq!(recorder.record_input(1, 1), Err(PushMetricsError::AlreadyRecorded));
    recorder.record_objects(1, 2, 3, 60, 4, 5).unwrap();
    recorder.record_backend(backend_metrics(2)).unwrap();
    assert!(matches!(
        recorder.record_backend(backend_metrics(u64::MAX)),
        Err(PushMetricsError::Overflow(_))
    ));
    recorder
        .record_quarantine(PushQuarantineMetrics {
            appended_bytes: 9,
            promoted_bytes: 8,
            cleanup_bytes: 7,
            orphan_bytes: 6,
        })
        .unwrap();
    recorder.record_phase(PushPhase::Request, nanos(5)).unwrap();
    recorder.record_phase(PushPhase::Validation, nanos(6)).unwrap();
    assert_eq!(
        recorder.record_phase(PushPhase::Quarantine, nanos(1)),
        Err(PushMetricsError::InvalidPhaseTransition)
    );
    assert_eq!(
        recorder.record_phase(PushPhase::Total, nanos(10)),
        Err(PushMetricsError::DurationExceedsTotal)
    );
    recorder.record_phase(PushPhase::Total, nanos(11)).unwrap();
    let report = recorder.finish(PushOutcome::Accepted);
    assert_eq!(report.pack.objects, 6);
    assert_eq!(report.pack.pack_bytes, 40);
    assert_eq!(report.backend.sql_rows, 2);
    assert_eq!(report.quarantine.orphan_bytes, 6);
    assert_eq!(recorder.record_objects(1, 0, 0, 0, 0, 0), Err(PushMetricsError::Finished));
}

#[test]
fn disabled_recorder_keeps_nothing() {
    let mut recorder = PushMetricsRecorder::disabled();
    recorder.record_input(100, 40).unwrap();
    recorder.record_backend(backend_metrics(2)).unwrap();
    let report = recorder.snapshot();
    assert_eq!(report.pack.pack_bytes, 0);
    assert_eq!(report.backend.sql_rows, 0);
    assert!(!recorder.is_enabled());
}

fn stream_limits() -> PackStreamLimits {
    PackStreamLimits {
        max_chunk_bytes: 8,
        max_total_bytes: 20,
        max_queued_bytes: 8,
        max_in_flight_bytes: 8,
        cancellation_checkpoint_bytes: 10,
    }
}

#[test]
fn sink_publishes_only_on_finish() {
    let mut sink = BoundedVecPackSink::new(stream_limits()).unwrap();
    sink.write_chunk(b"abc").unwrap();
    sink.write_chunk(b"").unwrap();
    assert!(sink.bytes().is_none());
    assert_eq!(sink.report().emitted_bytes, 3);
    assert_eq!(sink.report().emitted_chunks, 1);
    sink.finish().unwrap();
    assert_eq!(sink.bytes(), Some(&b"abc"[..]));
    assert_eq!(
        sink.write_chunk(b"d"),
        Err(PackStreamError::InvalidState {
            operation: PackSinkOperation::Write,
            state: PackSinkState::Finished,
        })
    );
    assert_eq!(sink.into_bytes().unwrap(), b"abc".to_vec());
}

#[test]
fn sink_aborts_on_any_limit() {
    let mut wide = BoundedVecPackSink::new(stream_limits()).unwrap();
    assert_eq!(wide.write_chunk(&[0; 9]), Err(PackStreamError::ChunkTooLarge));
    assert_eq!(wide.state(), PackSinkState::Aborted(PackAbortReason::LimitExceeded));
    let mut long = BoundedVecPackSink::new(stream_limits()).unwrap();
    long.write_chunk(&[0; 8]).unwrap();
    long.write_chunk(&[0; 8]).unwrap();
    assert_eq!(long.write_chunk(&[0; 8]), Err(PackStreamError::TotalLimit));
    assert!(long.bytes().is_none());
    let mut given_up = BoundedVecPackSink::new(stream_limits()).unwrap();
    given_up.abort(PackAbortReason::ClientDisconnected).unwrap();
    assert!(given_up.abort(PackAbortReason::Cancelled).is_err());
    assert!(given_up.finish().is_err());
    let mut invalid = stream_limits();
    invalid.cancellation_checkpoint_bytes = 7;
    assert!(matches!(
        BoundedVecPackSink::new(invalid).err(),
        Some(PackStreamError::InvalidLimits)
    ));
}

#[test]
fn cancellation_is_observed_every_interval() {
    let token = PackCancellationToken::new();
    let mut probe = CancellationGate::new(token.clone(), stream_limits()).unwrap();
    probe.observe_bytes(8).unwrap();
    assert_eq!(probe.report().checks, 0);
    probe.observe_bytes(2).unwrap();
    assert_eq!(probe.report().checks, 1);
    token.cancel();
    assert!(token.is_cancelled());
    probe.observe_bytes(8).unwrap();
    assert_eq!(probe.observe_bytes(8), Err(PackStreamError::Cancelled));
    assert!(probe.report().observed);
    let mut never = CancellationGate::new(NeverCancel, stream_limits()).unwrap();
    never.check_now().unwrap();
    assert_eq!(never.report(), CancellationReport { checks: 1, observed: false });
    let mut report = PackStreamReport::default();
    report.merge_cancellation(CancellationReport { checks: 3, observed: true }).unwrap();
    assert_eq!(report.cancellation_checks, 3);
    assert!(report.cancellation_observed);
}

#[test]
fn nothing_is_recorded_behind_the_total() {
    let mut recorder = PushMetricsRecorder::enabled();
    recorder.record_phase(PushPhase::Request, nanos(5)).unwrap();
    recorder.record_phase(PushPhase::Total, nanos(5)).unwrap();
    assert_eq!(
        recorder.record_phase(PushPhase::Cleanup, nanos(0)),
        Err(PushMetricsError::InvalidPhaseTransition)
    );
    assert_eq!(
        recorder.record_phase(PushPhase::Total, nanos(9)),
        Err(PushMetricsError::InvalidPhaseTransition)
    );
}
