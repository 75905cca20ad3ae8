//! What holds of every limit on a push or a clone, and of every measurement of one.

use crate::clock::{Duration, MAX_DURATION_NANOS};
use crate::clone_metrics::{
    saturated, CloneLimits, CloneObjectKindMetrics, CloneObjectMetrics, ClonePhase,
    ClonePhaseMetrics,
};
use crate::object::ObjectKind;
use crate::push_metrics::{
    first_exceeded, first_zero, LimitRow, PushBackendMetrics, PushMemoryMetrics, PushMetricsError,
    PushMetricsRecorder, PushPackMetrics, PushPhase, PushPhaseMetrics, PushQuarantineMetrics,
    ReceivePackLimitError, ReceivePackLimitKind, ReceivePackLimits,
};
use vstd::prelude::*;

verus! {

/// What the limits allow in one dimension.
pub open spec fn allowed(limits: ReceivePackLimits, kind: ReceivePackLimitKind) -> int {
    match kind {
        ReceivePackLimitKind::RequestBytes => limits.max_request_bytes as int,
        ReceivePackLimitKind::Commands => limits.max_commands as int,
        ReceivePackLimitKind::WantedObjects => limits.max_wanted_objects as int,
        ReceivePackLimitKind::Capabilities => limits.max_capabilities as int,
        ReceivePackLimitKind::PushOptions => limits.max_push_options as int,
        ReceivePackLimitKind::PushOptionBytes => limits.max_push_option_bytes as int,
        ReceivePackLimitKind::PackBytes => limits.max_pack_bytes as int,
        ReceivePackLimitKind::Objects => limits.max_objects as int,
        ReceivePackLimitKind::ObjectBytes => limits.max_object_bytes as int,
        ReceivePackLimitKind::InflatedBytes => limits.max_inflated_bytes as int,
        ReceivePackLimitKind::DeltaInstructionBytes => limits.max_delta_instruction_bytes as int,
        ReceivePackLimitKind::DeltaExpansionRatio => limits.max_delta_expansion_ratio as int,
        ReceivePackLimitKind::DeltaDepth => limits.max_delta_depth as int,
        ReceivePackLimitKind::Workers => limits.worker_count as int,
        ReceivePackLimitKind::BytesInFlight => limits.bytes_in_flight as int,
        ReceivePackLimitKind::StructuralMemory => limits.max_structural_memory_bytes as int,
        ReceivePackLimitKind::PreparedMemory => limits.max_prepared_memory_bytes as int,
        ReceivePackLimitKind::DeltaBaseMemory => limits.max_delta_base_memory_bytes as int,
        ReceivePackLimitKind::MetadataMemory => limits.max_metadata_memory_bytes as int,
        ReceivePackLimitKind::Duration => limits.max_duration.nanos as int,
        ReceivePackLimitKind::SqlStatements => limits.max_sql_statements as int,
        ReceivePackLimitKind::ObjectOperations => limits.max_object_operations as int,
        ReceivePackLimitKind::RangeOperations => limits.max_range_operations as int,
        ReceivePackLimitKind::ExternalOperations => limits.max_external_operations as int,
    }
}

/// The most that any limits may allow in one dimension.
pub open spec fn ceiling(kind: ReceivePackLimitKind) -> int {
    match kind {
        ReceivePackLimitKind::RequestBytes => 17_592_186_044_416,
        ReceivePackLimitKind::Commands => 65_536,
        ReceivePackLimitKind::WantedObjects => 65_536,
        ReceivePackLimitKind::Capabilities => 4_096,
        ReceivePackLimitKind::PushOptions => 65_536,
        ReceivePackLimitKind::PushOptionBytes => 1_073_741_824,
        ReceivePackLimitKind::PackBytes => 17_592_186_044_416,
        ReceivePackLimitKind::Objects => 20_000_000,
        ReceivePackLimitKind::ObjectBytes => 1_099_511_627_776,
        ReceivePackLimitKind::InflatedBytes => 17_592_186_044_416,
        ReceivePackLimitKind::DeltaInstructionBytes => 4_294_967_296,
        ReceivePackLimitKind::DeltaExpansionRatio => 1_000_000,
        ReceivePackLimitKind::DeltaDepth => 4_096,
        ReceivePackLimitKind::Workers => 256,
        ReceivePackLimitKind::BytesInFlight => 17_179_869_184,
        ReceivePackLimitKind::StructuralMemory => 17_179_869_184,
        ReceivePackLimitKind::PreparedMemory => 34_359_738_368,
        ReceivePackLimitKind::DeltaBaseMemory => 17_179_869_184,
        ReceivePackLimitKind::MetadataMemory => 17_179_869_184,
        ReceivePackLimitKind::Duration => 86_400_000_000_000,
        ReceivePackLimitKind::SqlStatements => 100_000_000,
        ReceivePackLimitKind::ObjectOperations => 100_000_000,
        ReceivePackLimitKind::RangeOperations => 100_000_000,
        ReceivePackLimitKind::ExternalOperations => 100_000_000,
    }
}

proof fn lemma_zero_is_found(rows: Seq<LimitRow>, from: int)
    requires
        0 <= from <= rows.len(),
    ensures
        first_zero(rows, from) is None <==> forall|i: int|
            from <= i < rows.len() ==> (#[trigger] rows[i]).value != 0,
        first_zero(rows, from) matches Some(kind) ==> exists|i: int|
            from <= i < rows.len() && (#[trigger] rows[i]).kind == kind && rows[i].value == 0,
    decreases rows.len() - from,
{
    if from < rows.len() && rows[from].value != 0 {
        lemma_zero_is_found(rows, from + 1);
        if first_zero(rows, from) is Some {
            let kind = first_zero(rows, from)->0;
            let i = choose|i: int|
                from + 1 <= i < rows.len() && (#[trigger] rows[i]).kind == kind && rows[i].value
                    == 0;
            assert(rows[i].kind == kind);
        }
    }
}

proof fn lemma_excess_is_found(rows: Seq<LimitRow>, from: int)
    requires
        0 <= from <= rows.len(),
    ensures
        first_exceeded(rows, from) is None <==> forall|i: int|
            from <= i < rows.len() ==> (#[trigger] rows[i]).value <= rows[i].maximum,
        first_exceeded(rows, from) matches Some(kind) ==> exists|i: int|
            from <= i < rows.len() && (#[trigger] rows[i]).kind == kind && rows[i].value
                > rows[i].maximum,
    decreases rows.len() - from,
{
    if from < rows.len() && rows[from].value <= rows[from].maximum {
        lemma_excess_is_found(rows, from + 1);
        if first_exceeded(rows, from) is Some {
            let kind = first_exceeded(rows, from)->0;
            let i = choose|i: int|
                from + 1 <= i < rows.len() && (#[trigger] rows[i]).kind == kind && rows[i].value
                    > rows[i].maximum;
            assert(rows[i].kind == kind);
        }
    }
}

/// Some comparison of the limits is about this dimension.
pub open spec fn compared(limits: ReceivePackLimits, kind: ReceivePackLimitKind) -> bool {
    exists|i: int| 0 <= i < limits.rows().len() && (#[trigger] limits.rows()[i]).kind == kind
}

/// Every limit is compared with zero and with its own ceiling, and each dimension is named by the
/// value that it has.
pub proof fn law_every_limit_is_compared(limits: ReceivePackLimits)
    ensures
        forall|i: int|
            0 <= i < limits.rows().len() ==> (#[trigger] limits.rows()[i]).value == allowed(
                limits,
                limits.rows()[i].kind,
            ) && limits.rows()[i].maximum == ceiling(limits.rows()[i].kind),
        forall|kind: ReceivePackLimitKind| #[trigger] compared(limits, kind),
{
    assert forall|kind: ReceivePackLimitKind| #[trigger] compared(limits, kind) by {
        let at: int = match kind {
            ReceivePackLimitKind::RequestBytes => 0,
            ReceivePackLimitKind::PushOptionBytes => 1,
            ReceivePackLimitKind::PackBytes => 2,
            ReceivePackLimitKind::ObjectBytes => 3,
            ReceivePackLimitKind::InflatedBytes => 4,
            ReceivePackLimitKind::DeltaInstructionBytes => 5,
            ReceivePackLimitKind::DeltaExpansionRatio => 6,
            ReceivePackLimitKind::BytesInFlight => 7,
            ReceivePackLimitKind::StructuralMemory => 8,
            ReceivePackLimitKind::PreparedMemory => 9,
            ReceivePackLimitKind::DeltaBaseMemory => 10,
            ReceivePackLimitKind::MetadataMemory => 11,
            ReceivePackLimitKind::SqlStatements => 12,
            ReceivePackLimitKind::ObjectOperations => 13,
            ReceivePackLimitKind::RangeOperations => 14,
            ReceivePackLimitKind::ExternalOperations => 15,
            ReceivePackLimitKind::Commands => 16,
            ReceivePackLimitKind::WantedObjects => 17,
            ReceivePackLimitKind::Capabilities => 18,
            ReceivePackLimitKind::PushOptions => 19,
            ReceivePackLimitKind::Objects => 20,
            ReceivePackLimitKind::Workers => 21,
            ReceivePackLimitKind::DeltaDepth => 22,
            ReceivePackLimitKind::Duration => 23,
        };
        assert(limits.rows()[at].kind == kind);
    }
}

/// Limits may be used exactly where every one of them is above zero and at most its ceiling, a
/// request has room for its pack and its options, no more objects are wanted than commands are
/// sent, and one object or instruction stream is no larger than all of them.
pub proof fn law_usable_limits(limits: ReceivePackLimits)
    ensures
        limits.fault() is None <==> ((forall|kind: ReceivePackLimitKind|
            0 < #[trigger] allowed(limits, kind) <= ceiling(kind)) && limits.max_pack_bytes
            <= limits.max_request_bytes && limits.max_push_option_bytes <= limits.max_request_bytes
            && limits.max_wanted_objects <= limits.max_commands && limits.max_object_bytes
            <= limits.max_inflated_bytes && limits.max_delta_instruction_bytes
            <= limits.max_inflated_bytes),
{
    law_every_limit_is_compared(limits);
    let rows = limits.rows();
    lemma_zero_is_found(rows, 0);
    lemma_excess_is_found(rows, 0);
    if limits.fault() is None {
        assert forall|kind: ReceivePackLimitKind| 0 < #[trigger] allowed(limits, kind) <= ceiling(
            kind,
        ) by {
            assert(compared(limits, kind));
        }
    }
    if forall|kind: ReceivePackLimitKind| 0 < #[trigger] allowed(limits, kind) <= ceiling(kind) {
        assert forall|i: int| 0 <= i < rows.len() implies (#[trigger] rows[i]).value != 0
            && rows[i].value <= rows[i].maximum by {
            assert(0 < allowed(limits, rows[i].kind) <= ceiling(rows[i].kind));
        }
    }
}

/// Unusable limits are refused for something that is wrong with them: a zero before an excess, and
/// either before a contradiction.
pub proof fn law_limit_fault_is_just(limits: ReceivePackLimits)
    ensures
        match limits.fault() {
            Some(ReceivePackLimitError::Zero(kind)) => allowed(limits, kind) == 0,
            Some(ReceivePackLimitError::ExceedsHardMaximum(kind)) => allowed(limits, kind)
                > ceiling(kind) && forall|other: ReceivePackLimitKind| #[trigger]
                allowed(limits, other) > 0,
            Some(ReceivePackLimitError::Inconsistent) => forall|other: ReceivePackLimitKind|
                0 < #[trigger] allowed(limits, other) <= ceiling(other),
            Some(ReceivePackLimitError::Exceeded(_)) => false,
            None => true,
        },
{
    law_every_limit_is_compared(limits);
    let rows = limits.rows();
    lemma_zero_is_found(rows, 0);
    lemma_excess_is_found(rows, 0);
    assert forall|other: ReceivePackLimitKind| true implies {
        &&& first_zero(rows, 0) is None ==> #[trigger] allowed(limits, other) > 0
        &&& first_exceeded(rows, 0) is None ==> allowed(limits, other) <= ceiling(other)
    } by {
        assert(compared(limits, other));
    }
}

/// A request is accepted under usable limits exactly where each of its sizes is within its own
/// limit; else it is refused in a dimension in which it is too large.
pub proof fn law_requests_within_limits_are_accepted(
    limits: ReceivePackLimits,
    request_bytes: usize,
    commands: usize,
    wanted_objects: usize,
    capabilities: usize,
    push_options: usize,
    push_option_bytes: u64,
    pack_bytes: usize,
)
    requires
        limits.fault() is None,
    ensures
        ({
            let answer = limits.check(
                limits.request_rows(
                    request_bytes,
                    commands,
                    wanted_objects,
                    capabilities,
                    push_options,
                    push_option_bytes,
                    pack_bytes,
                ),
            );
            &&& answer is Ok <==> (request_bytes <= limits.max_request_bytes && commands
                <= limits.max_commands && wanted_objects <= limits.max_wanted_objects
                && capabilities <= limits.max_capabilities && push_options
                <= limits.max_push_options && push_option_bytes <= limits.max_push_option_bytes
                && pack_bytes <= limits.max_pack_bytes)
            &&& match answer {
                Ok(_) => true,
                Err(ReceivePackLimitError::Exceeded(kind)) => match kind {
                    ReceivePackLimitKind::RequestBytes => request_bytes > limits.max_request_bytes,
                    ReceivePackLimitKind::Commands => commands > limits.max_commands,
                    ReceivePackLimitKind::WantedObjects => wanted_objects
                        > limits.max_wanted_objects,
                    ReceivePackLimitKind::Capabilities => capabilities > limits.max_capabilities,
                    ReceivePackLimitKind::PushOptions => push_options > limits.max_push_options,
                    ReceivePackLimitKind::PushOptionBytes => push_option_bytes
                        > limits.max_push_option_bytes,
                    ReceivePackLimitKind::PackBytes => pack_bytes > limits.max_pack_bytes,
                    _ => false,
                },
                Err(_) => false,
            }
        }),
{
    reveal_with_fuel(first_exceeded, 9);
}

/// A pack's totals are accepted under usable limits exactly where it has no more objects, no larger
/// object and no more bytes in all than allowed.
pub proof fn law_pack_totals_within_limits_are_accepted(
    limits: ReceivePackLimits,
    objects: usize,
    largest: u64,
    inflated: u64,
)
    requires
        limits.fault() is None,
    ensures
        ({
            let answer = limits.check(limits.pack_rows(objects, largest, inflated));
            &&& answer is Ok <==> (objects <= limits.max_objects && largest
                <= limits.max_object_bytes && inflated <= limits.max_inflated_bytes)
            &&& match answer {
                Ok(_) => true,
                Err(ReceivePackLimitError::Exceeded(kind)) => match kind {
                    ReceivePackLimitKind::Objects => objects > limits.max_objects,
                    ReceivePackLimitKind::ObjectBytes => largest > limits.max_object_bytes,
                    ReceivePackLimitKind::InflatedBytes => inflated > limits.max_inflated_bytes,
                    _ => false,
                },
                Err(_) => false,
            }
        }),
{
    reveal_with_fuel(first_exceeded, 5);
}

/// A delta is within bounds exactly where it has instructions and a base, both within their limits,
/// and makes an object that is neither too large nor too many times as large as the instructions.
pub proof fn law_delta_within_limits_is_accepted(
    limits: ReceivePackLimits,
    instruction_bytes: u64,
    resolved_bytes: u64,
    depth: u32,
)
    ensures
        limits.delta_fault(instruction_bytes, resolved_bytes, depth) is None <==> (0
            < instruction_bytes <= limits.max_delta_instruction_bytes && 0 < depth
            <= limits.max_delta_depth && resolved_bytes <= limits.max_object_bytes
            && resolved_bytes <= instruction_bytes * limits.max_delta_expansion_ratio <= u64::MAX),
        match limits.delta_fault(instruction_bytes, resolved_bytes, depth) {
            Some(ReceivePackLimitKind::DeltaInstructionBytes) => instruction_bytes == 0
                || instruction_bytes > limits.max_delta_instruction_bytes,
            Some(ReceivePackLimitKind::DeltaDepth) => depth == 0 || depth > limits.max_delta_depth,
            Some(ReceivePackLimitKind::ObjectBytes) => resolved_bytes > limits.max_object_bytes,
            Some(ReceivePackLimitKind::DeltaExpansionRatio) => resolved_bytes > instruction_bytes
                * limits.max_delta_expansion_ratio || instruction_bytes
                * limits.max_delta_expansion_ratio > u64::MAX,
            Some(_) => false,
            None => true,
        },
{
}

/// Memory is within bounds exactly where each use of it is within its own limit.
pub proof fn law_memory_within_limits_is_accepted(
    limits: ReceivePackLimits,
    observation: PushMemoryMetrics,
)
    requires
        limits.fault() is None,
    ensures
        ({
            let answer = limits.check(limits.memory_rows(observation));
            &&& answer is Ok <==> (observation.structural_bytes
                <= limits.max_structural_memory_bytes && observation.prepared_bytes
                <= limits.max_prepared_memory_bytes && observation.delta_base_bytes
                <= limits.max_delta_base_memory_bytes && observation.metadata_bytes
                <= limits.max_metadata_memory_bytes)
            &&& match answer {
                Ok(_) => true,
                Err(ReceivePackLimitError::Exceeded(kind)) => match kind {
                    ReceivePackLimitKind::StructuralMemory => observation.structural_bytes
                        > limits.max_structural_memory_bytes,
                    ReceivePackLimitKind::PreparedMemory => observation.prepared_bytes
                        > limits.max_prepared_memory_bytes,
                    ReceivePackLimitKind::DeltaBaseMemory => observation.delta_base_bytes
                        > limits.max_delta_base_memory_bytes,
                    ReceivePackLimitKind::MetadataMemory => observation.metadata_bytes
                        > limits.max_metadata_memory_bytes,
                    _ => false,
                },
                Err(_) => false,
            }
        }),
{
    reveal_with_fuel(first_exceeded, 6);
}

/// Backend work is within bounds exactly where its statements, its reads and writes of objects
/// together, its range reads, and its external gets and puts together are.
pub proof fn law_backend_within_limits_is_accepted(
    limits: ReceivePackLimits,
    observation: PushBackendMetrics,
)
    requires
        limits.fault() is None,
    ensures
        ({
            let answer = limits.check(limits.backend_rows(observation));
            &&& answer is Ok <==> (observation.sql_statements <= limits.max_sql_statements
                && observation.object_reads + observation.object_writes
                <= limits.max_object_operations && observation.range_reads
                <= limits.max_range_operations && observation.external_gets
                + observation.external_puts <= limits.max_external_operations)
            &&& match answer {
                Ok(_) => true,
                Err(ReceivePackLimitError::Exceeded(kind)) => match kind {
                    ReceivePackLimitKind::SqlStatements => observation.sql_statements
                        > limits.max_sql_statements,
                    ReceivePackLimitKind::ObjectOperations => observation.object_reads
                        + observation.object_writes > limits.max_object_operations,
                    ReceivePackLimitKind::RangeOperations => observation.range_reads
                        > limits.max_range_operations,
                    ReceivePackLimitKind::ExternalOperations => observation.external_gets
                        + observation.external_puts > limits.max_external_operations,
                    _ => false,
                },
                Err(_) => false,
            }
        }),
{
    reveal_with_fuel(first_exceeded, 6);
}

/// The recorded length of one phase of a push.
pub open spec fn push_phase(phases: PushPhaseMetrics, phase: PushPhase) -> Option<Duration> {
    match phase {
        PushPhase::Request => phases.request,
        PushPhase::Quarantine => phases.quarantine,
        PushPhase::Validation => phases.validation,
        PushPhase::Policy => phases.policy,
        PushPhase::DurableInstall => phases.durable_install,
        PushPhase::RefPublication => phases.ref_publication,
        PushPhase::Cleanup => phases.cleanup,
        PushPhase::Total => phases.total,
    }
}

/// A recorded phase has the length that was measured, and no other phase changes. A component adds
/// its length to the sum of all components, and the total does not.
pub proof fn law_push_phase_is_recorded(
    phases: PushPhaseMetrics,
    phase: PushPhase,
    duration: Duration,
    other: PushPhase,
)
    ensures
        push_phase(phases.with(phase, duration), phase) == Some(duration),
        other != phase ==> push_phase(phases.with(phase, duration), other) == push_phase(
            phases,
            other,
        ),
        phase != PushPhase::Total && push_phase(phases, phase) is None ==> phases.with(
            phase,
            duration,
        ).component_nanos() == phases.component_nanos() + duration.nanos,
        phases.with(PushPhase::Total, duration).component_nanos() == phases.component_nanos(),
        (forall|component: PushPhase|
            component != PushPhase::Total ==> #[trigger] push_phase(phases, component) is None)
            ==> phases.component_nanos() == 0,
{
    if forall|component: PushPhase|
        component != PushPhase::Total ==> #[trigger] push_phase(phases, component) is None {
        assert(push_phase(phases, PushPhase::Request) is None);
        assert(push_phase(phases, PushPhase::Quarantine) is None);
        assert(push_phase(phases, PushPhase::Validation) is None);
        assert(push_phase(phases, PushPhase::Policy) is None);
        assert(push_phase(phases, PushPhase::DurableInstall) is None);
        assert(push_phase(phases, PushPhase::RefPublication) is None);
        assert(push_phase(phases, PushPhase::Cleanup) is None);
    }
}

/// A request is read, stored, checked, judged, installed, published and cleaned up in that order,
/// and its total comes last: the first phase may be any, and a recorded phase lets through exactly
/// the phases behind it.
pub proof fn law_push_phases_follow_their_order(
    recorder: PushMetricsRecorder,
    phase: PushPhase,
    duration: Duration,
)
    requires
        recorder.spec_report().outcome is None,
        recorder.spec_report().phases.total is None,
        recorder.spec_report().phases.component_nanos() <= duration.nanos <= MAX_DURATION_NANOS,
    ensures
        recorder.spec_last_phase() is None ==> recorder.phase_fault(phase, duration) is None,
        recorder.spec_last_phase() == Some(PushPhase::Request) ==> (recorder.phase_fault(
            phase,
            duration,
        ) is None <==> phase !is Request),
        recorder.spec_last_phase() == Some(PushPhase::Quarantine) ==> (recorder.phase_fault(
            phase,
            duration,
        ) is None <==> (phase !is Request && phase !is Quarantine)),
        recorder.spec_last_phase() == Some(PushPhase::Validation) ==> (recorder.phase_fault(
            phase,
            duration,
        ) is None <==> (phase is Policy || phase is DurableInstall || phase is RefPublication
            || phase is Cleanup || phase is Total)),
        recorder.spec_last_phase() == Some(PushPhase::Policy) ==> (recorder.phase_fault(
            phase,
            duration,
        ) is None <==> (phase is DurableInstall || phase is RefPublication || phase is Cleanup
            || phase is Total)),
        recorder.spec_last_phase() == Some(PushPhase::DurableInstall) ==> (recorder.phase_fault(
            phase,
            duration,
        ) is None <==> (phase is RefPublication || phase is Cleanup || phase is Total)),
        recorder.spec_last_phase() == Some(PushPhase::RefPublication) ==> (recorder.phase_fault(
            phase,
            duration,
        ) is None <==> (phase is Cleanup || phase is Total)),
        recorder.spec_last_phase() == Some(PushPhase::Cleanup) ==> (recorder.phase_fault(
            phase,
            duration,
        ) is None <==> phase is Total),
        recorder.spec_last_phase() == Some(PushPhase::Total) ==> recorder.phase_fault(
            phase,
            duration,
        ) is Some,
        recorder.phase_fault(phase, duration) is Some ==> recorder.phase_fault(phase, duration)
            == Some(PushMetricsError::InvalidPhaseTransition),
{
}

/// A total covers all of the components: a shorter one is refused, and a component that is longer
/// than a recorded total too.
pub proof fn law_push_total_covers_the_components(
    recorder: PushMetricsRecorder,
    phase: PushPhase,
    duration: Duration,
)
    ensures
        recorder.phase_fault(phase, duration) is None && phase is Total ==> recorder.spec_report()
            .phases.with(phase, duration).component_nanos() <= duration.nanos,
        recorder.phase_fault(phase, duration) is None && recorder.spec_report().phases.total is Some
            && phase !is Total ==> duration.nanos <= recorder.spec_report().phases.total->0.nanos,
        recorder.spec_report().outcome is Some ==> recorder.phase_fault(phase, duration) == Some(
            PushMetricsError::Finished,
        ),
        recorder.phase_fault(phase, duration) == Some(PushMetricsError::DurationExceedsTotal) ==> (
        phase is Total && recorder.spec_report().phases.component_nanos() > duration.nanos) || (
        phase !is Total && recorder.spec_report().phases.total is Some && duration.nanos
            > recorder.spec_report().phases.total->0.nanos),
        recorder.phase_fault(phase, duration) == Some(PushMetricsError::DurationOverflow)
            ==> phase is Total && recorder.spec_report().phases.component_nanos()
            > MAX_DURATION_NANOS,
        recorder.phase_fault(phase, duration) == Some(PushMetricsError::InvalidPhaseTransition)
            ==> recorder.spec_last_phase() is Some,
        recorder.phase_fault(phase, duration) matches Some(fault) ==> fault !is AlreadyRecorded
            && fault !is Overflow,
{
}

/// Two observations of backend work add up counter by counter, and their sum is refused exactly
/// where some counter would pass 64 bits.
pub proof fn law_backend_work_adds_up(left: PushBackendMetrics, right: PushBackendMetrics)
    ensures
        !left.sum_overflows(right) <==> (left.sql_statements + right.sql_statements <= u64::MAX
            && left.sql_rows + right.sql_rows <= u64::MAX && left.sql_transactions
            + right.sql_transactions <= u64::MAX && left.sql_bytes + right.sql_bytes <= u64::MAX
            && left.object_reads + right.object_reads <= u64::MAX && left.object_writes
            + right.object_writes <= u64::MAX && left.object_bytes + right.object_bytes <= u64::MAX
            && left.range_reads + right.range_reads <= u64::MAX && left.range_bytes
            + right.range_bytes <= u64::MAX && left.external_gets + right.external_gets <= u64::MAX
            && left.external_puts + right.external_puts <= u64::MAX && left.external_bytes
            + right.external_bytes <= u64::MAX),
        left.sum(right) == right.sum(left),
        !left.sum_overflows(right) ==> {
            let sum = left.sum(right);
            &&& sum.sql_statements - left.sql_statements == right.sql_statements
            &&& sum.sql_rows - left.sql_rows == right.sql_rows
            &&& sum.sql_transactions - left.sql_transactions == right.sql_transactions
            &&& sum.sql_bytes - left.sql_bytes == right.sql_bytes
            &&& sum.object_reads - left.object_reads == right.object_reads
            &&& sum.object_writes - left.object_writes == right.object_writes
            &&& sum.object_bytes - left.object_bytes == right.object_bytes
            &&& sum.range_reads - left.range_reads == right.range_reads
            &&& sum.range_bytes - left.range_bytes == right.range_bytes
            &&& sum.external_gets - left.external_gets == right.external_gets
            &&& sum.external_puts - left.external_puts == right.external_puts
            &&& sum.external_bytes - left.external_bytes == right.external_bytes
        },
{
}

/// Two observations of quarantined bytes add up counter by counter, and their sum is refused exactly
/// where some counter would pass 64 bits.
pub proof fn law_quarantined_bytes_add_up(
    left: PushQuarantineMetrics,
    right: PushQuarantineMetrics,
)
    ensures
        !left.sum_overflows(right) <==> (left.appended_bytes + right.appended_bytes <= u64::MAX
            && left.promoted_bytes + right.promoted_bytes <= u64::MAX && left.cleanup_bytes
            + right.cleanup_bytes <= u64::MAX && left.orphan_bytes + right.orphan_bytes
            <= u64::MAX),
        left.sum(right) == right.sum(left),
        !left.sum_overflows(right) ==> {
            let sum = left.sum(right);
            &&& sum.appended_bytes - left.appended_bytes == right.appended_bytes
            &&& sum.promoted_bytes - left.promoted_bytes == right.promoted_bytes
            &&& sum.cleanup_bytes - left.cleanup_bytes == right.cleanup_bytes
            &&& sum.orphan_bytes - left.orphan_bytes == right.orphan_bytes
        },
{
}

/// Objects can be counted exactly where each counter has room: that of all objects for the three
/// kinds together, and those of the kinds and of the bytes for their own.
pub proof fn law_objects_are_counted_with_room(
    pack: PushPackMetrics,
    direct: u64,
    ofs_deltas: u64,
    ref_deltas: u64,
    inflated_bytes: u64,
)
    ensures
        !PushMetricsRecorder::objects_overflow(pack, direct, ofs_deltas, ref_deltas, inflated_bytes)
            <==> (direct + ofs_deltas + ref_deltas <= u64::MAX - pack.objects && direct <= u64::MAX
            - pack.direct_objects && ofs_deltas <= u64::MAX - pack.ofs_deltas && ref_deltas
            <= u64::MAX - pack.ref_deltas && inflated_bytes <= u64::MAX - pack.inflated_bytes),
{
}

/// The larger of two numbers is one of them, and at least as large as both.
pub proof fn law_larger_is_the_maximum(left: u64, right: u64)
    ensures
        crate::push_metrics::larger(left, right) >= left,
        crate::push_metrics::larger(left, right) >= right,
        crate::push_metrics::larger(left, right) == left || crate::push_metrics::larger(left, right)
            == right,
        crate::clone_metrics::larger(left, right) >= left,
        crate::clone_metrics::larger(left, right) >= right,
        crate::clone_metrics::larger(left, right) == left || crate::clone_metrics::larger(
            left,
            right,
        ) == right,
{
}

/// A counter goes up by what is added until it is at the largest 64-bit number, where it stays.
pub proof fn law_counters_saturate(left: u64, right: u64)
    ensures
        left + right <= u64::MAX ==> saturated(left as int, right as int) - left == right,
        left + right > u64::MAX ==> saturated(left as int, right as int) == u64::MAX,
        saturated(left as int, right as int) >= left,
        saturated(left as int, right as int) == saturated(right as int, left as int),
{
}

/// Counters are kept apart by kind: what is recorded of one kind is found there, and no other kind
/// changes.
pub proof fn law_kinds_are_counted_apart(
    objects: CloneObjectMetrics,
    kind: ObjectKind,
    counters: CloneObjectKindMetrics,
    other: ObjectKind,
)
    ensures
        objects.with(kind, counters).of(kind) == counters,
        other != kind ==> objects.with(kind, counters).of(other) == objects.of(other),
        objects.with(ObjectKind::Blob, counters).blobs == counters,
        objects.with(ObjectKind::Tree, counters).trees == counters,
        objects.with(ObjectKind::Commit, counters).commits == counters,
        objects.with(ObjectKind::Tag, counters).tags == counters,
        objects.of(ObjectKind::Blob) == objects.blobs,
        objects.of(ObjectKind::Tree) == objects.trees,
        objects.of(ObjectKind::Commit) == objects.commits,
        objects.of(ObjectKind::Tag) == objects.tags,
{
}

/// A phase of a clone is recorded exactly where nothing was recorded of it before and no component
/// would be longer than the total; and then it, and it alone, has the measured length.
pub proof fn law_clone_phase_is_recorded(
    phases: ClonePhaseMetrics,
    phase: ClonePhase,
    duration: Duration,
    other: ClonePhase,
)
    ensures
        phases.consistent() ==> (phases.accepts(phase, duration) <==> (phases.of(phase) is None
            && phases.with(phase, duration).consistent())),
        phases.with(phase, duration).of(phase) == Some(duration),
        other != phase ==> phases.with(phase, duration).of(other) == phases.of(other),
        phases.of(ClonePhase::Negotiation) == phases.negotiation,
        phases.of(ClonePhase::Reachability) == phases.reachability,
        phases.of(ClonePhase::PackPlan) == phases.pack_plan,
        phases.of(ClonePhase::FirstByte) == phases.first_byte,
        phases.of(ClonePhase::Compression) == phases.compression,
        phases.of(ClonePhase::Total) == phases.total,
{
}

/// Phases are consistent exactly where no total is recorded, or no recorded phase is longer than it.
pub proof fn law_clone_total_covers_each_phase(phases: ClonePhaseMetrics)
    ensures
        phases.consistent() <==> forall|phase: ClonePhase| #[trigger]
            phases.of(phase) is Some && phases.total is Some ==> phases.of(phase)->0.nanos
                <= phases.total->0.nanos,
{
    if forall|phase: ClonePhase| #[trigger]
        phases.of(phase) is Some && phases.total is Some ==> phases.of(phase)->0.nanos
            <= phases.total->0.nanos {
        let negotiation = phases.of(ClonePhase::Negotiation);
        let reachability = phases.of(ClonePhase::Reachability);
        let pack_plan = phases.of(ClonePhase::PackPlan);
        let first_byte = phases.of(ClonePhase::FirstByte);
        let compression = phases.of(ClonePhase::Compression);
        assert(phases.consistent());
    }
}

/// Limits of a clone may be used exactly where all but the coalescing gap are above zero and none is
/// above its ceiling.
pub proof fn law_usable_clone_limits(limits: CloneLimits)
    ensures
        limits.valid() <==> (0 < limits.max_wants <= 65_536 && 0 < limits.max_haves <= 4_000_000
            && 0 < limits.max_selected_objects <= 20_000_000 && 0 < limits.max_output_bytes
            <= 17_592_186_044_416 && 0 < limits.max_duration.nanos <= 86_400_000_000_000 && 0
            < limits.read_workers <= 256 && 0 < limits.compression_workers <= 256 && 0
            < limits.decoded_bytes_in_flight <= 17_179_869_184 && 0
            < limits.encoded_bytes_in_flight <= 4_294_967_296 && 0 < limits.delta_cache_bytes
            <= 34_359_738_368 && 0 < limits.range_read_concurrency <= 1_024
            && limits.range_coalescing_bytes <= 1_073_741_824 && 0
            < limits.negotiation_spill_threshold <= 17_179_869_184),
        limits.some_zero() <==> (limits.max_wants == 0 || limits.max_haves == 0
            || limits.max_selected_objects == 0 || limits.max_output_bytes == 0
            || limits.max_duration.nanos == 0 || limits.read_workers == 0
            || limits.compression_workers == 0 || limits.decoded_bytes_in_flight == 0
            || limits.encoded_bytes_in_flight == 0 || limits.delta_cache_bytes == 0
            || limits.range_read_concurrency == 0 || limits.negotiation_spill_threshold == 0),
{
}

/// Lowering gives the largest limits that are within both the given ones and the ceilings.
pub proof fn law_lowered_limits_are_the_largest_allowed(limits: CloneLimits, other: CloneLimits)
    requires
        !other.some_above(limits),
        !other.some_above(CloneLimits::spec_hard_max()),
    ensures
        !limits.lowered().some_above(limits),
        !limits.lowered().some_above(CloneLimits::spec_hard_max()),
        !other.some_above(limits.lowered()),
{
}

} // verus!
