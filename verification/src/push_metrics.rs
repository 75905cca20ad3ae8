//! Receive-pack measurements and safety limits.
//!
//! Nothing here reads a clock or a request identity. Callers supply durations and aggregate backend
//! observations at the boundaries that own those measurements.

use crate::clock::{Duration, MAX_DURATION_NANOS};
use vstd::prelude::*;

verus! {

/// Receive-pack safety-limit dimension.
#[derive(Clone, Copy, Debug, PartialEq, Eq, Structural)]
pub enum ReceivePackLimitKind {
    /// Complete buffered request bytes.
    RequestBytes,
    /// Ref update commands.
    Commands,
    /// Non-delete object wants introduced by commands.
    WantedObjects,
    /// Requested capability tokens.
    Capabilities,
    /// Push-option count.
    PushOptions,
    /// Aggregate push-option bytes.
    PushOptionBytes,
    /// Compressed PACK bytes.
    PackBytes,
    /// PACK object entries.
    Objects,
    /// One inflated direct object.
    ObjectBytes,
    /// Aggregate inflated direct and delta-instruction bytes.
    InflatedBytes,
    /// One inflated delta-instruction stream.
    DeltaInstructionBytes,
    /// Resolved-to-instruction delta expansion ratio.
    DeltaExpansionRatio,
    /// Resolved delta chain depth.
    DeltaDepth,
    /// Decode worker count.
    Workers,
    /// Request-owned bytes concurrently in flight.
    BytesInFlight,
    /// Structural parsing memory.
    StructuralMemory,
    /// Prepared push memory.
    PreparedMemory,
    /// Retained delta-base memory.
    DeltaBaseMemory,
    /// Prepared metadata memory.
    MetadataMemory,
    /// Complete request duration.
    Duration,
    /// SQL statements attributable to one request.
    SqlStatements,
    /// Object backend operations attributable to one request.
    ObjectOperations,
    /// Backend range operations attributable to one request.
    RangeOperations,
    /// External-store operations attributable to one request.
    ExternalOperations,
}

/// Receive-pack limit validation or enforcement failure.
#[derive(Clone, Copy, Debug, PartialEq, Eq, Structural)]
pub enum ReceivePackLimitError {
    /// A limit needed before allocation is zero.
    Zero(ReceivePackLimitKind),
    /// A limit is above the absolute ceiling.
    ExceedsHardMaximum(ReceivePackLimitKind),
    /// An observation is above its limit.
    Exceeded(ReceivePackLimitKind),
    /// Limits or observations contradict each other.
    Inconsistent,
}

/// One limit or observation beside the most it may be.
#[derive(Clone, Copy, Debug, PartialEq, Eq, Structural)]
pub struct LimitRow {
    /// The value.
    pub value: u128,
    /// The most it may be.
    pub maximum: u128,
    /// The dimension that it belongs to.
    pub kind: ReceivePackLimitKind,
}

/// The dimension of the first row from `from` on whose value is zero.
pub open spec fn first_zero(rows: Seq<LimitRow>, from: int) -> Option<ReceivePackLimitKind>
    decreases rows.len() - from,
{
    if from < 0 || from >= rows.len() {
        None
    } else if rows[from].value == 0 {
        Some(rows[from].kind)
    } else {
        first_zero(rows, from + 1)
    }
}

/// The dimension of the first row from `from` on whose value is above its maximum.
pub open spec fn first_exceeded(rows: Seq<LimitRow>, from: int) -> Option<ReceivePackLimitKind>
    decreases rows.len() - from,
{
    if from < 0 || from >= rows.len() {
        None
    } else if rows[from].value > rows[from].maximum {
        Some(rows[from].kind)
    } else {
        first_exceeded(rows, from + 1)
    }
}

/// Find the first row whose value is zero.
fn find_zero(rows: &Vec<LimitRow>) -> (found: Option<ReceivePackLimitKind>)
    ensures
        found == first_zero(rows@, 0),
{
    let mut at: usize = 0;
    while at < rows.len()
        invariant
            at <= rows@.len(),
            first_zero(rows@, 0) == first_zero(rows@, at as int),
        decreases rows.len() - at,
    {
        if rows[at].value == 0 {
            return Some(rows[at].kind);
        }
        at = at + 1;
    }
    None
}

/// Find the first row whose value is above its maximum.
fn find_exceeded(rows: &Vec<LimitRow>) -> (found: Option<ReceivePackLimitKind>)
    ensures
        found == first_exceeded(rows@, 0),
{
    let mut at: usize = 0;
    while at < rows.len()
        invariant
            at <= rows@.len(),
            first_exceeded(rows@, 0) == first_exceeded(rows@, at as int),
        decreases rows.len() - at,
    {
        if rows[at].value > rows[at].maximum {
            return Some(rows[at].kind);
        }
        at = at + 1;
    }
    None
}

/// Receive-pack allocation and execution limits.
#[derive(Clone, Copy, Debug, PartialEq, Eq, Structural)]
pub struct ReceivePackLimits {
    /// Maximum complete request bytes.
    pub max_request_bytes: u64,
    /// Maximum ref update commands.
    pub max_commands: usize,
    /// Maximum non-delete wants.
    pub max_wanted_objects: usize,
    /// Maximum capability tokens.
    pub max_capabilities: usize,
    /// Maximum push options.
    pub max_push_options: usize,
    /// Maximum aggregate push-option bytes.
    pub max_push_option_bytes: u64,
    /// Maximum compressed PACK bytes.
    pub max_pack_bytes: u64,
    /// Maximum PACK entries.
    pub max_objects: usize,
    /// Maximum bytes of one inflated object.
    pub max_object_bytes: u64,
    /// Maximum aggregate inflated bytes.
    pub max_inflated_bytes: u64,
    /// Maximum bytes of one inflated delta.
    pub max_delta_instruction_bytes: u64,
    /// Maximum resolved-to-instruction ratio.
    pub max_delta_expansion_ratio: u64,
    /// Maximum resolved delta depth.
    pub max_delta_depth: u32,
    /// Decode workers.
    pub worker_count: usize,
    /// Maximum request-owned bytes in flight.
    pub bytes_in_flight: u64,
    /// Maximum structural parsing memory.
    pub max_structural_memory_bytes: u64,
    /// Maximum prepared push memory.
    pub max_prepared_memory_bytes: u64,
    /// Maximum retained delta-base memory.
    pub max_delta_base_memory_bytes: u64,
    /// Maximum prepared metadata memory.
    pub max_metadata_memory_bytes: u64,
    /// Maximum request duration.
    pub max_duration: Duration,
    /// Maximum SQL statements.
    pub max_sql_statements: u64,
    /// Maximum object operations.
    pub max_object_operations: u64,
    /// Maximum range operations.
    pub max_range_operations: u64,
    /// Maximum external operations.
    pub max_external_operations: u64,
}

impl ReceivePackLimits {
    /// Absolute ceilings accepted by [`Self::validate`].
    pub open spec fn spec_hard_max() -> ReceivePackLimits {
        ReceivePackLimits {
            max_request_bytes: 17_592_186_044_416,
            max_commands: 65_536,
            max_wanted_objects: 65_536,
            max_capabilities: 4_096,
            max_push_options: 65_536,
            max_push_option_bytes: 1_073_741_824,
            max_pack_bytes: 17_592_186_044_416,
            max_objects: 20_000_000,
            max_object_bytes: 1_099_511_627_776,
            max_inflated_bytes: 17_592_186_044_416,
            max_delta_instruction_bytes: 4_294_967_296,
            max_delta_expansion_ratio: 1_000_000,
            max_delta_depth: 4_096,
            worker_count: 256,
            bytes_in_flight: 17_179_869_184,
            max_structural_memory_bytes: 17_179_869_184,
            max_prepared_memory_bytes: 34_359_738_368,
            max_delta_base_memory_bytes: 17_179_869_184,
            max_metadata_memory_bytes: 17_179_869_184,
            max_duration: Duration { nanos: 86_400_000_000_000 },
            max_sql_statements: 100_000_000,
            max_object_operations: 100_000_000,
            max_range_operations: 100_000_000,
            max_external_operations: 100_000_000,
        }
    }

    /// Return the absolute ceilings accepted by [`Self::validate`].
    pub fn hard_max() -> (limits: ReceivePackLimits)
        ensures
            limits == Self::spec_hard_max(),
    {
        ReceivePackLimits {
            max_request_bytes: 17_592_186_044_416,
            max_commands: 65_536,
            max_wanted_objects: 65_536,
            max_capabilities: 4_096,
            max_push_options: 65_536,
            max_push_option_bytes: 1_073_741_824,
            max_pack_bytes: 17_592_186_044_416,
            max_objects: 20_000_000,
            max_object_bytes: 1_099_511_627_776,
            max_inflated_bytes: 17_592_186_044_416,
            max_delta_instruction_bytes: 4_294_967_296,
            max_delta_expansion_ratio: 1_000_000,
            max_delta_depth: 4_096,
            worker_count: 256,
            bytes_in_flight: 17_179_869_184,
            max_structural_memory_bytes: 17_179_869_184,
            max_prepared_memory_bytes: 34_359_738_368,
            max_delta_base_memory_bytes: 17_179_869_184,
            max_metadata_memory_bytes: 17_179_869_184,
            max_duration: Duration { nanos: 86_400_000_000_000 },
            max_sql_statements: 100_000_000,
            max_object_operations: 100_000_000,
            max_range_operations: 100_000_000,
            max_external_operations: 100_000_000,
        }
    }

    /// Every limit beside its ceiling, in the order in which limits are checked.
    pub open spec fn rows(self) -> Seq<LimitRow> {
        let hard = Self::spec_hard_max();
        seq![
            LimitRow { value: self.max_request_bytes as u128, maximum: hard.max_request_bytes as u128, kind: ReceivePackLimitKind::RequestBytes },
            LimitRow { value: self.max_push_option_bytes as u128, maximum: hard.max_push_option_bytes as u128, kind: ReceivePackLimitKind::PushOptionBytes },
            LimitRow { value: self.max_pack_bytes as u128, maximum: hard.max_pack_bytes as u128, kind: ReceivePackLimitKind::PackBytes },
            LimitRow { value: self.max_object_bytes as u128, maximum: hard.max_object_bytes as u128, kind: ReceivePackLimitKind::ObjectBytes },
            LimitRow { value: self.max_inflated_bytes as u128, maximum: hard.max_inflated_bytes as u128, kind: ReceivePackLimitKind::InflatedBytes },
            LimitRow { value: self.max_delta_instruction_bytes as u128, maximum: hard.max_delta_instruction_bytes as u128, kind: ReceivePackLimitKind::DeltaInstructionBytes },
            LimitRow { value: self.max_delta_expansion_ratio as u128, maximum: hard.max_delta_expansion_ratio as u128, kind: ReceivePackLimitKind::DeltaExpansionRatio },
            LimitRow { value: self.bytes_in_flight as u128, maximum: hard.bytes_in_flight as u128, kind: ReceivePackLimitKind::BytesInFlight },
            LimitRow { value: self.max_structural_memory_bytes as u128, maximum: hard.max_structural_memory_bytes as u128, kind: ReceivePackLimitKind::StructuralMemory },
            LimitRow { value: self.max_prepared_memory_bytes as u128, maximum: hard.max_prepared_memory_bytes as u128, kind: ReceivePackLimitKind::PreparedMemory },
            LimitRow { value: self.max_delta_base_memory_bytes as u128, maximum: hard.max_delta_base_memory_bytes as u128, kind: ReceivePackLimitKind::DeltaBaseMemory },
            LimitRow { value: self.max_metadata_memory_bytes as u128, maximum: hard.max_metadata_memory_bytes as u128, kind: ReceivePackLimitKind::MetadataMemory },
            LimitRow { value: self.max_sql_statements as u128, maximum: hard.max_sql_statements as u128, kind: ReceivePackLimitKind::SqlStatements },
            LimitRow { value: self.max_object_operations as u128, maximum: hard.max_object_operations as u128, kind: ReceivePackLimitKind::ObjectOperations },
            LimitRow { value: self.max_range_operations as u128, maximum: hard.max_range_operations as u128, kind: ReceivePackLimitKind::RangeOperations },
            LimitRow { value: self.max_external_operations as u128, maximum: hard.max_external_operations as u128, kind: ReceivePackLimitKind::ExternalOperations },
            LimitRow { value: self.max_commands as u128, maximum: hard.max_commands as u128, kind: ReceivePackLimitKind::Commands },
            LimitRow { value: self.max_wanted_objects as u128, maximum: hard.max_wanted_objects as u128, kind: ReceivePackLimitKind::WantedObjects },
            LimitRow { value: self.max_capabilities as u128, maximum: hard.max_capabilities as u128, kind: ReceivePackLimitKind::Capabilities },
            LimitRow { value: self.max_push_options as u128, maximum: hard.max_push_options as u128, kind: ReceivePackLimitKind::PushOptions },
            LimitRow { value: self.max_objects as u128, maximum: hard.max_objects as u128, kind: ReceivePackLimitKind::Objects },
            LimitRow { value: self.worker_count as u128, maximum: hard.worker_count as u128, kind: ReceivePackLimitKind::Workers },
            LimitRow { value: self.max_delta_depth as u128, maximum: hard.max_delta_depth as u128, kind: ReceivePackLimitKind::DeltaDepth },
            LimitRow { value: self.max_duration.nanos, maximum: hard.max_duration.nanos, kind: ReceivePackLimitKind::Duration },
        ]
    }

    /// Some limit is above another that must cover it.
    pub open spec fn inconsistent(self) -> bool {
        ||| self.max_pack_bytes > self.max_request_bytes
        ||| self.max_push_option_bytes > self.max_request_bytes
        ||| self.max_wanted_objects > self.max_commands
        ||| self.max_object_bytes > self.max_inflated_bytes
        ||| self.max_delta_instruction_bytes > self.max_inflated_bytes
    }

    /// The first thing wrong with the limits: a zero, then a value above its ceiling, then a
    /// contradiction.
    pub open spec fn fault(self) -> Option<ReceivePackLimitError> {
        match first_zero(self.rows(), 0) {
            Some(kind) => Some(ReceivePackLimitError::Zero(kind)),
            None => match first_exceeded(self.rows(), 0) {
                Some(kind) => Some(ReceivePackLimitError::ExceedsHardMaximum(kind)),
                None => if self.inconsistent() {
                    Some(ReceivePackLimitError::Inconsistent)
                } else {
                    None
                },
            },
        }
    }

    /// Validate nonzero, bounded and consistent limits before any allocation.
    pub fn validate(self) -> (result: Result<Self, ReceivePackLimitError>)
        ensures
            match self.fault() {
                Some(error) => result == Err::<Self, ReceivePackLimitError>(error),
                None => result == Ok::<Self, ReceivePackLimitError>(self),
            },
    {
        let hard = Self::hard_max();
        let rows: Vec<LimitRow> = vec![
            LimitRow { value: self.max_request_bytes as u128, maximum: hard.max_request_bytes as u128, kind: ReceivePackLimitKind::RequestBytes },
            LimitRow { value: self.max_push_option_bytes as u128, maximum: hard.max_push_option_bytes as u128, kind: ReceivePackLimitKind::PushOptionBytes },
            LimitRow { value: self.max_pack_bytes as u128, maximum: hard.max_pack_bytes as u128, kind: ReceivePackLimitKind::PackBytes },
            LimitRow { value: self.max_object_bytes as u128, maximum: hard.max_object_bytes as u128, kind: ReceivePackLimitKind::ObjectBytes },
            LimitRow { value: self.max_inflated_bytes as u128, maximum: hard.max_inflated_bytes as u128, kind: ReceivePackLimitKind::InflatedBytes },
            LimitRow { value: self.max_delta_instruction_bytes as u128, maximum: hard.max_delta_instruction_bytes as u128, kind: ReceivePackLimitKind::DeltaInstructionBytes },
            LimitRow { value: self.max_delta_expansion_ratio as u128, maximum: hard.max_delta_expansion_ratio as u128, kind: ReceivePackLimitKind::DeltaExpansionRatio },
            LimitRow { value: self.bytes_in_flight as u128, maximum: hard.bytes_in_flight as u128, kind: ReceivePackLimitKind::BytesInFlight },
            LimitRow { value: self.max_structural_memory_bytes as u128, maximum: hard.max_structural_memory_bytes as u128, kind: ReceivePackLimitKind::StructuralMemory },
            LimitRow { value: self.max_prepared_memory_bytes as u128, maximum: hard.max_prepared_memory_bytes as u128, kind: ReceivePackLimitKind::PreparedMemory },
            LimitRow { value: self.max_delta_base_memory_bytes as u128, maximum: hard.max_delta_base_memory_bytes as u128, kind: ReceivePackLimitKind::DeltaBaseMemory },
            LimitRow { value: self.max_metadata_memory_bytes as u128, maximum: hard.max_metadata_memory_bytes as u128, kind: ReceivePackLimitKind::MetadataMemory },
            LimitRow { value: self.max_sql_statements as u128, maximum: hard.max_sql_statements as u128, kind: ReceivePackLimitKind::SqlStatements },
            LimitRow { value: self.max_object_operations as u128, maximum: hard.max_object_operations as u128, kind: ReceivePackLimitKind::ObjectOperations },
            LimitRow { value: self.max_range_operations as u128, maximum: hard.max_range_operations as u128, kind: ReceivePackLimitKind::RangeOperations },
            LimitRow { value: self.max_external_operations as u128, maximum: hard.max_external_operations as u128, kind: ReceivePackLimitKind::ExternalOperations },
            LimitRow { value: self.max_commands as u128, maximum: hard.max_commands as u128, kind: ReceivePackLimitKind::Commands },
            LimitRow { value: self.max_wanted_objects as u128, maximum: hard.max_wanted_objects as u128, kind: ReceivePackLimitKind::WantedObjects },
            LimitRow { value: self.max_capabilities as u128, maximum: hard.max_capabilities as u128, kind: ReceivePackLimitKind::Capabilities },
            LimitRow { value: self.max_push_options as u128, maximum: hard.max_push_options as u128, kind: ReceivePackLimitKind::PushOptions },
            LimitRow { value: self.max_objects as u128, maximum: hard.max_objects as u128, kind: ReceivePackLimitKind::Objects },
            LimitRow { value: self.worker_count as u128, maximum: hard.worker_count as u128, kind: ReceivePackLimitKind::Workers },
            LimitRow { value: self.max_delta_depth as u128, maximum: hard.max_delta_depth as u128, kind: ReceivePackLimitKind::DeltaDepth },
            LimitRow { value: self.max_duration.nanos, maximum: hard.max_duration.nanos, kind: ReceivePackLimitKind::Duration },
        ];
        assert(rows@ =~= self.rows());
        if let Some(kind) = find_zero(&rows) {
            return Err(ReceivePackLimitError::Zero(kind));
        }
        if let Some(kind) = find_exceeded(&rows) {
            return Err(ReceivePackLimitError::ExceedsHardMaximum(kind));
        }
        if self.max_pack_bytes > self.max_request_bytes || self.max_push_option_bytes
            > self.max_request_bytes || self.max_wanted_objects > self.max_commands
            || self.max_object_bytes > self.max_inflated_bytes || self.max_delta_instruction_bytes
            > self.max_inflated_bytes {
            return Err(ReceivePackLimitError::Inconsistent);
        }
        Ok(self)
    }

    /// A request's dimensions beside their limits, in the order in which they are checked.
    pub open spec fn request_rows(
        self,
        request_bytes: usize,
        commands: usize,
        wanted_objects: usize,
        capabilities: usize,
        push_options: usize,
        push_option_bytes: u64,
        pack_bytes: usize,
    ) -> Seq<LimitRow> {
        seq![
            LimitRow { value: request_bytes as u128, maximum: self.max_request_bytes as u128, kind: ReceivePackLimitKind::RequestBytes },
            LimitRow { value: commands as u128, maximum: self.max_commands as u128, kind: ReceivePackLimitKind::Commands },
            LimitRow { value: wanted_objects as u128, maximum: self.max_wanted_objects as u128, kind: ReceivePackLimitKind::WantedObjects },
            LimitRow { value: capabilities as u128, maximum: self.max_capabilities as u128, kind: ReceivePackLimitKind::Capabilities },
            LimitRow { value: push_options as u128, maximum: self.max_push_options as u128, kind: ReceivePackLimitKind::PushOptions },
            LimitRow { value: push_option_bytes as u128, maximum: self.max_push_option_bytes as u128, kind: ReceivePackLimitKind::PushOptionBytes },
            LimitRow { value: pack_bytes as u128, maximum: self.max_pack_bytes as u128, kind: ReceivePackLimitKind::PackBytes },
        ]
    }

    /// The first fault of the limits, or else the first observation above its limit.
    pub open spec fn check(self, rows: Seq<LimitRow>) -> Result<(), ReceivePackLimitError> {
        match self.fault() {
            Some(error) => Err(error),
            None => match first_exceeded(rows, 0) {
                Some(kind) => Err(ReceivePackLimitError::Exceeded(kind)),
                None => Ok(()),
            },
        }
    }

    /// Reject an oversized request before preparation allocates state for it.
    pub fn validate_request(
        self,
        request_bytes: usize,
        commands: usize,
        wanted_objects: usize,
        capabilities: usize,
        push_options: usize,
        push_option_bytes: u64,
        pack_bytes: usize,
    ) -> (result: Result<(), ReceivePackLimitError>)
        ensures
            result == self.check(
                self.request_rows(
                    request_bytes,
                    commands,
                    wanted_objects,
                    capabilities,
                    push_options,
                    push_option_bytes,
                    pack_bytes,
                ),
            ),
    {
        if let Err(error) = self.validate() {
            return Err(error);
        }
        let rows: Vec<LimitRow> = vec![
            LimitRow { value: request_bytes as u128, maximum: self.max_request_bytes as u128, kind: ReceivePackLimitKind::RequestBytes },
            LimitRow { value: commands as u128, maximum: self.max_commands as u128, kind: ReceivePackLimitKind::Commands },
            LimitRow { value: wanted_objects as u128, maximum: self.max_wanted_objects as u128, kind: ReceivePackLimitKind::WantedObjects },
            LimitRow { value: capabilities as u128, maximum: self.max_capabilities as u128, kind: ReceivePackLimitKind::Capabilities },
            LimitRow { value: push_options as u128, maximum: self.max_push_options as u128, kind: ReceivePackLimitKind::PushOptions },
            LimitRow { value: push_option_bytes as u128, maximum: self.max_push_option_bytes as u128, kind: ReceivePackLimitKind::PushOptionBytes },
            LimitRow { value: pack_bytes as u128, maximum: self.max_pack_bytes as u128, kind: ReceivePackLimitKind::PackBytes },
        ];
        assert(rows@ =~= self.request_rows(
            request_bytes,
            commands,
            wanted_objects,
            capabilities,
            push_options,
            push_option_bytes,
            pack_bytes,
        ));
        match find_exceeded(&rows) {
            Some(kind) => Err(ReceivePackLimitError::Exceeded(kind)),
            None => Ok(()),
        }
    }

    /// A PACK's totals beside their limits, in the order in which they are checked.
    pub open spec fn pack_rows(self, objects: usize, largest: u64, inflated: u64) -> Seq<LimitRow> {
        seq![
            LimitRow { value: objects as u128, maximum: self.max_objects as u128, kind: ReceivePackLimitKind::Objects },
            LimitRow { value: largest as u128, maximum: self.max_object_bytes as u128, kind: ReceivePackLimitKind::ObjectBytes },
            LimitRow { value: inflated as u128, maximum: self.max_inflated_bytes as u128, kind: ReceivePackLimitKind::InflatedBytes },
        ]
    }

    /// Enforce aggregate PACK totals.
    pub fn validate_pack_totals(
        self,
        objects: usize,
        largest_object_bytes: u64,
        total_inflated_bytes: u64,
    ) -> (result: Result<(), ReceivePackLimitError>)
        ensures
            result == self.check(
                self.pack_rows(objects, largest_object_bytes, total_inflated_bytes),
            ),
    {
        proof {
            reveal_with_fuel(first_exceeded, 4);
        }
        if let Err(error) = self.validate() {
            return Err(error);
        }
        if objects > self.max_objects {
            return Err(ReceivePackLimitError::Exceeded(ReceivePackLimitKind::Objects));
        }
        if largest_object_bytes > self.max_object_bytes {
            return Err(ReceivePackLimitError::Exceeded(ReceivePackLimitKind::ObjectBytes));
        }
        if total_inflated_bytes > self.max_inflated_bytes {
            return Err(ReceivePackLimitError::Exceeded(ReceivePackLimitKind::InflatedBytes));
        }
        Ok(())
    }

    /// The dimension in which one delta is out of bounds, checked in order.
    pub open spec fn delta_fault(
        self,
        instruction_bytes: u64,
        resolved_bytes: u64,
        depth: u32,
    ) -> Option<ReceivePackLimitKind> {
        if instruction_bytes == 0 || instruction_bytes > self.max_delta_instruction_bytes {
            Some(ReceivePackLimitKind::DeltaInstructionBytes)
        } else if depth == 0 || depth > self.max_delta_depth {
            Some(ReceivePackLimitKind::DeltaDepth)
        } else if resolved_bytes > self.max_object_bytes {
            Some(ReceivePackLimitKind::ObjectBytes)
        } else if instruction_bytes * self.max_delta_expansion_ratio > u64::MAX || resolved_bytes
            > instruction_bytes * self.max_delta_expansion_ratio {
            Some(ReceivePackLimitKind::DeltaExpansionRatio)
        } else {
            None
        }
    }

    /// Enforce one resolved delta's instruction size, depth, result size and expansion.
    pub fn validate_delta(
        self,
        instruction_bytes: u64,
        resolved_bytes: u64,
        depth: u32,
    ) -> (result: Result<(), ReceivePackLimitError>)
        ensures
            result == match self.fault() {
                Some(error) => Err::<(), ReceivePackLimitError>(error),
                None => match self.delta_fault(instruction_bytes, resolved_bytes, depth) {
                    Some(kind) => Err(ReceivePackLimitError::Exceeded(kind)),
                    None => Ok(()),
                },
            },
    {
        if let Err(error) = self.validate() {
            return Err(error);
        }
        if instruction_bytes == 0 || instruction_bytes > self.max_delta_instruction_bytes {
            return Err(
                ReceivePackLimitError::Exceeded(ReceivePackLimitKind::DeltaInstructionBytes),
            );
        }
        if depth == 0 || depth > self.max_delta_depth {
            return Err(ReceivePackLimitError::Exceeded(ReceivePackLimitKind::DeltaDepth));
        }
        if resolved_bytes > self.max_object_bytes {
            return Err(ReceivePackLimitError::Exceeded(ReceivePackLimitKind::ObjectBytes));
        }
        match instruction_bytes.checked_mul(self.max_delta_expansion_ratio) {
            Some(maximum_resolved) => {
                if resolved_bytes > maximum_resolved {
                    return Err(
                        ReceivePackLimitError::Exceeded(ReceivePackLimitKind::DeltaExpansionRatio),
                    );
                }
                Ok(())
            },
            None => Err(ReceivePackLimitError::Exceeded(ReceivePackLimitKind::DeltaExpansionRatio)),
        }
    }

    /// Enforce the request duration.
    pub fn validate_duration(self, elapsed: Duration) -> (result: Result<(), ReceivePackLimitError>)
        ensures
            result == self.check(
                seq![(LimitRow { value: elapsed.nanos, maximum: self.max_duration.nanos, kind: ReceivePackLimitKind::Duration })],
            ),
    {
        proof {
            reveal_with_fuel(first_exceeded, 2);
        }
        if let Err(error) = self.validate() {
            return Err(error);
        }
        if elapsed.nanos > self.max_duration.nanos {
            return Err(ReceivePackLimitError::Exceeded(ReceivePackLimitKind::Duration));
        }
        Ok(())
    }

    /// Memory observations beside their limits, in the order in which they are checked.
    pub open spec fn memory_rows(self, observation: PushMemoryMetrics) -> Seq<LimitRow> {
        seq![
            LimitRow { value: observation.structural_bytes as u128, maximum: self.max_structural_memory_bytes as u128, kind: ReceivePackLimitKind::StructuralMemory },
            LimitRow { value: observation.prepared_bytes as u128, maximum: self.max_prepared_memory_bytes as u128, kind: ReceivePackLimitKind::PreparedMemory },
            LimitRow { value: observation.delta_base_bytes as u128, maximum: self.max_delta_base_memory_bytes as u128, kind: ReceivePackLimitKind::DeltaBaseMemory },
            LimitRow { value: observation.metadata_bytes as u128, maximum: self.max_metadata_memory_bytes as u128, kind: ReceivePackLimitKind::MetadataMemory },
        ]
    }

    /// Enforce each memory category, and that the total covers the largest of them.
    pub fn validate_memory(
        self,
        observation: PushMemoryMetrics,
    ) -> (result: Result<(), ReceivePackLimitError>)
        ensures
            result == match self.check(self.memory_rows(observation)) {
                Err(error) => Err::<(), ReceivePackLimitError>(error),
                Ok(_) => if observation.total_bytes < observation.structural_bytes
                    || observation.total_bytes < observation.prepared_bytes
                    || observation.total_bytes < observation.delta_base_bytes
                    || observation.total_bytes < observation.metadata_bytes {
                    Err(ReceivePackLimitError::Inconsistent)
                } else {
                    Ok(())
                },
            },
    {
        if let Err(error) = self.validate() {
            return Err(error);
        }
        let rows: Vec<LimitRow> = vec![
            LimitRow { value: observation.structural_bytes as u128, maximum: self.max_structural_memory_bytes as u128, kind: ReceivePackLimitKind::StructuralMemory },
            LimitRow { value: observation.prepared_bytes as u128, maximum: self.max_prepared_memory_bytes as u128, kind: ReceivePackLimitKind::PreparedMemory },
            LimitRow { value: observation.delta_base_bytes as u128, maximum: self.max_delta_base_memory_bytes as u128, kind: ReceivePackLimitKind::DeltaBaseMemory },
            LimitRow { value: observation.metadata_bytes as u128, maximum: self.max_metadata_memory_bytes as u128, kind: ReceivePackLimitKind::MetadataMemory },
        ];
        assert(rows@ =~= self.memory_rows(observation));
        if let Some(kind) = find_exceeded(&rows) {
            return Err(ReceivePackLimitError::Exceeded(kind));
        }
        if observation.total_bytes < observation.structural_bytes || observation.total_bytes
            < observation.prepared_bytes || observation.total_bytes < observation.delta_base_bytes
            || observation.total_bytes < observation.metadata_bytes {
            return Err(ReceivePackLimitError::Inconsistent);
        }
        Ok(())
    }

    /// Enforce the bytes concurrently in flight.
    pub fn validate_bytes_in_flight(self, bytes: u64) -> (result: Result<
        (),
        ReceivePackLimitError,
    >)
        ensures
            result == self.check(
                seq![(LimitRow { value: bytes as u128, maximum: self.bytes_in_flight as u128, kind: ReceivePackLimitKind::BytesInFlight })],
            ),
    {
        proof {
            reveal_with_fuel(first_exceeded, 2);
        }
        if let Err(error) = self.validate() {
            return Err(error);
        }
        if bytes > self.bytes_in_flight {
            return Err(ReceivePackLimitError::Exceeded(ReceivePackLimitKind::BytesInFlight));
        }
        Ok(())
    }

    /// Backend observations beside their limits, in the order in which they are checked.
    pub open spec fn backend_rows(self, observation: PushBackendMetrics) -> Seq<LimitRow> {
        seq![
            LimitRow { value: observation.sql_statements as u128, maximum: self.max_sql_statements as u128, kind: ReceivePackLimitKind::SqlStatements },
            LimitRow { value: (observation.object_reads + observation.object_writes) as u128, maximum: self.max_object_operations as u128, kind: ReceivePackLimitKind::ObjectOperations },
            LimitRow { value: observation.range_reads as u128, maximum: self.max_range_operations as u128, kind: ReceivePackLimitKind::RangeOperations },
            LimitRow { value: (observation.external_gets + observation.external_puts) as u128, maximum: self.max_external_operations as u128, kind: ReceivePackLimitKind::ExternalOperations },
        ]
    }

    /// Enforce backend operation counts.
    ///
    /// Totals that do not fit 64 bits are reported before any comparison.
    pub fn validate_backend(
        self,
        observation: PushBackendMetrics,
    ) -> (result: Result<(), ReceivePackLimitError>)
        ensures
            result == if self.fault() is Some {
                Err::<(), ReceivePackLimitError>(self.fault()->0)
            } else if observation.object_reads + observation.object_writes > u64::MAX {
                Err(ReceivePackLimitError::Exceeded(ReceivePackLimitKind::ObjectOperations))
            } else if observation.external_gets + observation.external_puts > u64::MAX {
                Err(ReceivePackLimitError::Exceeded(ReceivePackLimitKind::ExternalOperations))
            } else {
                self.check(self.backend_rows(observation))
            },
    {
        if let Err(error) = self.validate() {
            return Err(error);
        }
        let object_operations: u64 = match observation.object_reads.checked_add(
            observation.object_writes,
        ) {
            Some(total) => total,
            None => {
                return Err(
                    ReceivePackLimitError::Exceeded(ReceivePackLimitKind::ObjectOperations),
                );
            },
        };
        let external_operations: u64 = match observation.external_gets.checked_add(
            observation.external_puts,
        ) {
            Some(total) => total,
            None => {
                return Err(
                    ReceivePackLimitError::Exceeded(ReceivePackLimitKind::ExternalOperations),
                );
            },
        };
        let rows: Vec<LimitRow> = vec![
            LimitRow { value: observation.sql_statements as u128, maximum: self.max_sql_statements as u128, kind: ReceivePackLimitKind::SqlStatements },
            LimitRow { value: object_operations as u128, maximum: self.max_object_operations as u128, kind: ReceivePackLimitKind::ObjectOperations },
            LimitRow { value: observation.range_reads as u128, maximum: self.max_range_operations as u128, kind: ReceivePackLimitKind::RangeOperations },
            LimitRow { value: external_operations as u128, maximum: self.max_external_operations as u128, kind: ReceivePackLimitKind::ExternalOperations },
        ];
        assert(rows@ =~= self.backend_rows(observation));
        match find_exceeded(&rows) {
            Some(kind) => Err(ReceivePackLimitError::Exceeded(kind)),
            None => Ok(()),
        }
    }
}

impl Default for ReceivePackLimits {
    fn default() -> (limits: Self)
        ensures
            limits == spec_default_limits(),
    {
        ReceivePackLimits {
            max_request_bytes: 68_736_253_952,
            max_commands: 1_024,
            max_wanted_objects: 1_024,
            max_capabilities: 256,
            max_push_options: 1_024,
            max_push_option_bytes: 1_048_576,
            max_pack_bytes: 68_719_476_736,
            max_objects: 2_000_000,
            max_object_bytes: 17_179_869_184,
            max_inflated_bytes: 274_877_906_944,
            max_delta_instruction_bytes: 268_435_456,
            max_delta_expansion_ratio: 10_000,
            max_delta_depth: 128,
            worker_count: 8,
            bytes_in_flight: 268_435_456,
            max_structural_memory_bytes: 268_435_456,
            max_prepared_memory_bytes: 1_073_741_824,
            max_delta_base_memory_bytes: 536_870_912,
            max_metadata_memory_bytes: 268_435_456,
            max_duration: Duration { nanos: 7_200_000_000_000 },
            max_sql_statements: 20_000_000,
            max_object_operations: 20_000_000,
            max_range_operations: 2_000_000,
            max_external_operations: 2_000_000,
        }
    }
}

/// The limits that a server runs with unless configured otherwise.
pub open spec fn spec_default_limits() -> ReceivePackLimits {
    ReceivePackLimits {
        max_request_bytes: 68_736_253_952,
        max_commands: 1_024,
        max_wanted_objects: 1_024,
        max_capabilities: 256,
        max_push_options: 1_024,
        max_push_option_bytes: 1_048_576,
        max_pack_bytes: 68_719_476_736,
        max_objects: 2_000_000,
        max_object_bytes: 17_179_869_184,
        max_inflated_bytes: 274_877_906_944,
        max_delta_instruction_bytes: 268_435_456,
        max_delta_expansion_ratio: 10_000,
        max_delta_depth: 128,
        worker_count: 8,
        bytes_in_flight: 268_435_456,
        max_structural_memory_bytes: 268_435_456,
        max_prepared_memory_bytes: 1_073_741_824,
        max_delta_base_memory_bytes: 536_870_912,
        max_metadata_memory_bytes: 268_435_456,
        max_duration: Duration { nanos: 7_200_000_000_000 },
        max_sql_statements: 20_000_000,
        max_object_operations: 20_000_000,
        max_range_operations: 2_000_000,
        max_external_operations: 2_000_000,
    }
}

/// The report with an outcome, unless it has one.
pub open spec fn finished(report: PushMetricsReport, outcome: PushOutcome) -> PushMetricsReport {
    if report.outcome is None {
        PushMetricsReport { outcome: Some(outcome), ..report }
    } else {
        report
    }
}

/// The first outcome stays: finishing again changes nothing.
pub proof fn law_first_outcome_stays(
    report: PushMetricsReport,
    first: PushOutcome,
    later: PushOutcome,
)
    ensures
        finished(finished(report, first), later) == finished(report, first),
        report.outcome is None ==> finished(report, first).outcome == Some(first),
{
}

/// Phases only go forward: neither a phase already passed nor any phase after the outcome is
/// recorded.
pub proof fn law_phases_go_forward(
    recorder: PushMetricsRecorder,
    phase: PushPhase,
    duration: Duration,
)
    requires
        recorder.spec_report().outcome is Some || (recorder.spec_last_phase() is Some
            && phase.spec_rank() <= recorder.spec_last_phase()->0.spec_rank()),
    ensures
        recorder.phase_fault(phase, duration) is Some,
{
}

/// Nothing is recorded behind a total.
pub proof fn law_total_is_the_last_phase(
    recorder: PushMetricsRecorder,
    phase: PushPhase,
    duration: Duration,
)
    requires
        recorder.total_last(),
        recorder.spec_report().phases.total is Some,
    ensures
        recorder.phase_fault(phase, duration) is Some,
{
}

/// The ceilings and the defaults are themselves valid limits.
pub proof fn law_known_limits_are_valid()
    ensures
        ReceivePackLimits::spec_hard_max().fault() is None,
        spec_default_limits().fault() is None,
{
    reveal_with_fuel(first_zero, 26);
    reveal_with_fuel(first_exceeded, 26);
}

/// Valid limits are nonzero, and none is above its ceiling.
pub proof fn law_valid_limits_are_bounded(limits: ReceivePackLimits)
    requires
        limits.fault() is None,
    ensures
        0 < limits.max_request_bytes <= 17_592_186_044_416,
        0 < limits.max_push_option_bytes <= 1_073_741_824,
        0 < limits.max_pack_bytes <= 17_592_186_044_416,
        0 < limits.max_object_bytes <= 1_099_511_627_776,
        0 < limits.max_inflated_bytes <= 17_592_186_044_416,
        0 < limits.max_delta_instruction_bytes <= 4_294_967_296,
        0 < limits.max_delta_expansion_ratio <= 1_000_000,
        0 < limits.bytes_in_flight <= 17_179_869_184,
        0 < limits.max_structural_memory_bytes <= 17_179_869_184,
        0 < limits.max_prepared_memory_bytes <= 34_359_738_368,
        0 < limits.max_delta_base_memory_bytes <= 17_179_869_184,
        0 < limits.max_metadata_memory_bytes <= 17_179_869_184,
        0 < limits.max_sql_statements <= 100_000_000,
        0 < limits.max_object_operations <= 100_000_000,
        0 < limits.max_range_operations <= 100_000_000,
        0 < limits.max_external_operations <= 100_000_000,
        0 < limits.max_commands <= 65_536,
        0 < limits.max_wanted_objects <= 65_536,
        0 < limits.max_capabilities <= 4_096,
        0 < limits.max_push_options <= 65_536,
        0 < limits.max_objects <= 20_000_000,
        0 < limits.worker_count <= 256,
        0 < limits.max_delta_depth <= 4_096,
        0 < limits.max_duration.nanos <= 86_400_000_000_000,
        !limits.inconsistent(),
{
    reveal_with_fuel(first_zero, 26);
    reveal_with_fuel(first_exceeded, 26);
}

/// Receive-pack processing phase, in processing order.
#[derive(Clone, Copy, Debug, PartialEq, Eq, PartialOrd, Ord, Structural)]
pub enum PushPhase {
    /// Request parsing.
    Request,
    /// Quarantine storage.
    Quarantine,
    /// PACK validation.
    Validation,
    /// Policy evaluation.
    Policy,
    /// Durable object installation.
    DurableInstall,
    /// Ref publication.
    RefPublication,
    /// Quarantine cleanup.
    Cleanup,
    /// Complete request lifetime.
    Total,
}

impl PushPhase {
    /// Place in processing order.
    pub open spec fn spec_rank(self) -> int {
        match self {
            PushPhase::Request => 0,
            PushPhase::Quarantine => 1,
            PushPhase::Validation => 2,
            PushPhase::Policy => 3,
            PushPhase::DurableInstall => 4,
            PushPhase::RefPublication => 5,
            PushPhase::Cleanup => 6,
            PushPhase::Total => 7,
        }
    }

    fn rank(self) -> (rank: u8)
        ensures
            rank == self.spec_rank(),
    {
        match self {
            PushPhase::Request => 0,
            PushPhase::Quarantine => 1,
            PushPhase::Validation => 2,
            PushPhase::Policy => 3,
            PushPhase::DurableInstall => 4,
            PushPhase::RefPublication => 5,
            PushPhase::Cleanup => 6,
            PushPhase::Total => 7,
        }
    }
}

/// Limit or policy rejection without client-controlled text.
#[derive(Clone, Copy, Debug, PartialEq, Eq, Structural)]
pub enum PushRejectionReason {
    /// A safety limit.
    Limit(ReceivePackLimitKind),
    /// Authorization.
    Authorization,
    /// Repository policy.
    Policy,
    /// A ref changed concurrently.
    RefConflict,
    /// A non-fast-forward update.
    NonFastForward,
    /// A malformed request.
    InvalidRequest,
    /// Admission control.
    Admission,
}

/// Who stopped a cancelled push.
#[derive(Clone, Copy, Debug, PartialEq, Eq, Structural)]
pub enum PushCancellationReason {
    /// The client.
    Client,
    /// The deadline.
    Deadline,
    /// The server.
    Server,
}

/// Which backend failed.
#[derive(Clone, Copy, Debug, PartialEq, Eq, Structural)]
pub enum PushBackendFailureReason {
    /// Storage.
    Storage,
    /// Audit.
    Audit,
    /// Cache invalidation.
    Invalidation,
}

/// First terminal receive-pack outcome.
#[derive(Clone, Copy, Debug, PartialEq, Eq, Structural)]
pub enum PushOutcome {
    /// Every command was applied.
    Accepted,
    /// The push was refused.
    Rejected(PushRejectionReason),
    /// The push was stopped.
    Cancelled(PushCancellationReason),
    /// A backend failed.
    BackendFailure(PushBackendFailureReason),
    /// The wire protocol was violated.
    ProtocolFailure,
}

/// Input and decoded object measurements.
#[derive(Clone, Copy, Debug, PartialEq, Eq, Structural)]
pub struct PushPackMetrics {
    /// Complete request bytes.
    pub request_bytes: u64,
    /// PACK bytes.
    pub pack_bytes: u64,
    /// PACK entries.
    pub objects: u64,
    /// Direct entries.
    pub direct_objects: u64,
    /// OFS-delta entries.
    pub ofs_deltas: u64,
    /// REF-delta entries.
    pub ref_deltas: u64,
    /// Inflated bytes.
    pub inflated_bytes: u64,
    /// Largest resolved depth.
    pub maximum_delta_depth: u32,
    /// Largest expansion ratio.
    pub maximum_delta_expansion_ratio: u64,
}

/// Peak request-owned memory measurements.
#[derive(Clone, Copy, Debug, PartialEq, Eq, Structural)]
pub struct PushMemoryMetrics {
    /// Structural parsing bytes.
    pub structural_bytes: u64,
    /// Prepared push bytes.
    pub prepared_bytes: u64,
    /// Retained delta-base bytes.
    pub delta_base_bytes: u64,
    /// Prepared metadata bytes.
    pub metadata_bytes: u64,
    /// All request-owned bytes.
    pub total_bytes: u64,
}

/// Backend operations and byte volumes.
#[derive(Clone, Copy, Debug, PartialEq, Eq, Structural)]
pub struct PushBackendMetrics {
    /// SQL statements.
    pub sql_statements: u64,
    /// SQL rows.
    pub sql_rows: u64,
    /// SQL transactions.
    pub sql_transactions: u64,
    /// SQL bytes.
    pub sql_bytes: u64,
    /// Object reads.
    pub object_reads: u64,
    /// Object writes.
    pub object_writes: u64,
    /// Object bytes.
    pub object_bytes: u64,
    /// Range reads.
    pub range_reads: u64,
    /// Range bytes.
    pub range_bytes: u64,
    /// External GETs.
    pub external_gets: u64,
    /// External PUTs.
    pub external_puts: u64,
    /// External bytes.
    pub external_bytes: u64,
}

/// Quarantine byte volumes.
#[derive(Clone, Copy, Debug, PartialEq, Eq, Structural)]
pub struct PushQuarantineMetrics {
    /// Appended bytes.
    pub appended_bytes: u64,
    /// Promoted bytes.
    pub promoted_bytes: u64,
    /// Cleaned-up bytes.
    pub cleanup_bytes: u64,
    /// Orphaned bytes.
    pub orphan_bytes: u64,
}

/// Caller-measured phase durations.
#[derive(Clone, Copy, Debug, PartialEq, Eq, Structural)]
pub struct PushPhaseMetrics {
    /// Request parsing.
    pub request: Option<Duration>,
    /// Quarantine storage.
    pub quarantine: Option<Duration>,
    /// PACK validation.
    pub validation: Option<Duration>,
    /// Policy evaluation.
    pub policy: Option<Duration>,
    /// Durable installation.
    pub durable_install: Option<Duration>,
    /// Ref publication.
    pub ref_publication: Option<Duration>,
    /// Cleanup.
    pub cleanup: Option<Duration>,
    /// Complete lifetime.
    pub total: Option<Duration>,
}

/// The length of an observation that may be missing.
pub open spec fn observed_nanos(observation: Option<Duration>) -> int {
    match observation {
        Some(span) => span.nanos as int,
        None => 0,
    }
}

impl PushPhaseMetrics {
    /// The sum of all recorded component phases.
    pub open spec fn component_nanos(self) -> int {
        observed_nanos(self.request) + observed_nanos(self.quarantine) + observed_nanos(
            self.validation,
        ) + observed_nanos(self.policy) + observed_nanos(self.durable_install) + observed_nanos(
            self.ref_publication,
        ) + observed_nanos(self.cleanup)
    }

    /// The phases with one of them set.
    pub open spec fn with(self, phase: PushPhase, duration: Duration) -> PushPhaseMetrics {
        match phase {
            PushPhase::Request => PushPhaseMetrics { request: Some(duration), ..self },
            PushPhase::Quarantine => PushPhaseMetrics { quarantine: Some(duration), ..self },
            PushPhase::Validation => PushPhaseMetrics { validation: Some(duration), ..self },
            PushPhase::Policy => PushPhaseMetrics { policy: Some(duration), ..self },
            PushPhase::DurableInstall => PushPhaseMetrics {
                durable_install: Some(duration),
                ..self
            },
            PushPhase::RefPublication => PushPhaseMetrics {
                ref_publication: Some(duration),
                ..self
            },
            PushPhase::Cleanup => PushPhaseMetrics { cleanup: Some(duration), ..self },
            PushPhase::Total => PushPhaseMetrics { total: Some(duration), ..self },
        }
    }
}

/// Point-in-time receive-pack metrics report.
#[derive(Clone, Copy, Debug, PartialEq, Eq, Structural)]
pub struct PushMetricsReport {
    /// Terminal outcome, or nothing while the request is in progress.
    pub outcome: Option<PushOutcome>,
    /// Input and decoded objects.
    pub pack: PushPackMetrics,
    /// Peak memory.
    pub memory: PushMemoryMetrics,
    /// Backend work.
    pub backend: PushBackendMetrics,
    /// Quarantine volumes.
    pub quarantine: PushQuarantineMetrics,
    /// Phase durations.
    pub phases: PushPhaseMetrics,
}

/// The report of a request of which nothing was recorded.
pub open spec fn empty_report() -> PushMetricsReport {
    PushMetricsReport {
        outcome: None,
        pack: PushPackMetrics {
            request_bytes: 0,
            pack_bytes: 0,
            objects: 0,
            direct_objects: 0,
            ofs_deltas: 0,
            ref_deltas: 0,
            inflated_bytes: 0,
            maximum_delta_depth: 0,
            maximum_delta_expansion_ratio: 0,
        },
        memory: PushMemoryMetrics {
            structural_bytes: 0,
            prepared_bytes: 0,
            delta_base_bytes: 0,
            metadata_bytes: 0,
            total_bytes: 0,
        },
        backend: PushBackendMetrics {
            sql_statements: 0,
            sql_rows: 0,
            sql_transactions: 0,
            sql_bytes: 0,
            object_reads: 0,
            object_writes: 0,
            object_bytes: 0,
            range_reads: 0,
            range_bytes: 0,
            external_gets: 0,
            external_puts: 0,
            external_bytes: 0,
        },
        quarantine: PushQuarantineMetrics {
            appended_bytes: 0,
            promoted_bytes: 0,
            cleanup_bytes: 0,
            orphan_bytes: 0,
        },
        phases: PushPhaseMetrics {
            request: None,
            quarantine: None,
            validation: None,
            policy: None,
            durable_install: None,
            ref_publication: None,
            cleanup: None,
            total: None,
        },
    }
}

/// Metric counter whose addition overflowed.
#[derive(Clone, Copy, Debug, PartialEq, Eq, Structural)]
pub enum PushMetricCounter {
    /// PACK counters.
    Pack,
    /// Memory counters.
    Memory,
    /// Backend counters.
    Backend,
    /// Quarantine counters.
    Quarantine,
}

/// Push recorder failure.
#[derive(Clone, Copy, Debug, PartialEq, Eq, Structural)]
pub enum PushMetricsError {
    /// A counter would overflow.
    Overflow(PushMetricCounter),
    /// Input was already recorded.
    AlreadyRecorded,
    /// The outcome is already known.
    Finished,
    /// Phases go forward only.
    InvalidPhaseTransition,
    /// A component is longer than the total.
    DurationExceedsTotal,
    /// The components do not fit the longest duration.
    DurationOverflow,
}

/// Request-scoped checked recorder with an optional no-op mode.
#[derive(Clone, Copy, Debug)]
pub struct PushMetricsRecorder {
    enabled: bool,
    report: PushMetricsReport,
    last_phase: Option<PushPhase>,
    input_recorded: bool,
}

/// The larger of two numbers.
pub open spec fn larger(left: u64, right: u64) -> u64 {
    if left >= right {
        left
    } else {
        right
    }
}

fn max_u64(left: u64, right: u64) -> (largest: u64)
    ensures
        largest == larger(left, right),
{
    if left >= right {
        left
    } else {
        right
    }
}

impl PushMetricsRecorder {
    /// Whether the recorder records.
    pub closed spec fn spec_enabled(self) -> bool {
        self.enabled
    }

    /// What was recorded.
    pub closed spec fn spec_report(self) -> PushMetricsReport {
        self.report
    }

    /// The latest recorded phase.
    pub closed spec fn spec_last_phase(self) -> Option<PushPhase> {
        self.last_phase
    }

    /// Whether input sizes were recorded.
    pub closed spec fn spec_input_recorded(self) -> bool {
        self.input_recorded
    }

    /// The recorder is the other one, except for its report.
    pub open spec fn same_but_report(self, other: PushMetricsRecorder) -> bool {
        &&& self.spec_enabled() == other.spec_enabled()
        &&& self.spec_last_phase() == other.spec_last_phase()
        &&& self.spec_input_recorded() == other.spec_input_recorded()
    }

    /// A recorded total was the latest phase.
    pub open spec fn total_last(self) -> bool {
        self.spec_report().phases.total is Some ==> self.spec_last_phase() == Some(PushPhase::Total)
    }

    /// The error that stops every observation: the outcome is known.
    pub open spec fn stopped(self) -> bool {
        self.spec_enabled() && self.spec_report().outcome is Some
    }

    /// Create a recorder that records.
    pub fn enabled() -> (recorder: Self)
        ensures
            recorder.spec_enabled(),
            recorder.spec_report() == empty_report(),
            recorder.spec_last_phase() is None,
            !recorder.spec_input_recorded(),
            recorder.total_last(),
    {
        let mut recorder = Self::disabled();
        recorder.enabled = true;
        recorder
    }

    /// Create a recorder that ignores every observation.
    pub fn disabled() -> (recorder: Self)
        ensures
            !recorder.spec_enabled(),
            recorder.spec_report() == empty_report(),
            recorder.spec_last_phase() is None,
            !recorder.spec_input_recorded(),
            recorder.total_last(),
    {
        PushMetricsRecorder {
            enabled: false,
            report: PushMetricsReport {
                outcome: None,
                pack: PushPackMetrics {
                    request_bytes: 0,
                    pack_bytes: 0,
                    objects: 0,
                    direct_objects: 0,
                    ofs_deltas: 0,
                    ref_deltas: 0,
                    inflated_bytes: 0,
                    maximum_delta_depth: 0,
                    maximum_delta_expansion_ratio: 0,
                },
                memory: PushMemoryMetrics {
                    structural_bytes: 0,
                    prepared_bytes: 0,
                    delta_base_bytes: 0,
                    metadata_bytes: 0,
                    total_bytes: 0,
                },
                backend: PushBackendMetrics {
                    sql_statements: 0,
                    sql_rows: 0,
                    sql_transactions: 0,
                    sql_bytes: 0,
                    object_reads: 0,
                    object_writes: 0,
                    object_bytes: 0,
                    range_reads: 0,
                    range_bytes: 0,
                    external_gets: 0,
                    external_puts: 0,
                    external_bytes: 0,
                },
                quarantine: PushQuarantineMetrics {
                    appended_bytes: 0,
                    promoted_bytes: 0,
                    cleanup_bytes: 0,
                    orphan_bytes: 0,
                },
                phases: PushPhaseMetrics {
                    request: None,
                    quarantine: None,
                    validation: None,
                    policy: None,
                    durable_install: None,
                    ref_publication: None,
                    cleanup: None,
                    total: None,
                },
            },
            last_phase: None,
            input_recorded: false,
        }
    }

    /// Return whether the recorder records.
    pub fn is_enabled(&self) -> (enabled: bool)
        ensures
            enabled == self.spec_enabled(),
    {
        self.enabled
    }

    /// Record the request and PACK sizes once.
    pub fn record_input(
        &mut self,
        request_bytes: usize,
        pack_bytes: usize,
    ) -> (result: Result<(), PushMetricsError>)
        ensures
            old(self).total_last() ==> final(self).total_last(),
            result == if old(self).stopped() {
                Err::<(), PushMetricsError>(PushMetricsError::Finished)
            } else if old(self).spec_enabled() && old(self).spec_input_recorded() {
                Err(PushMetricsError::AlreadyRecorded)
            } else {
                Ok(())
            },
            result is Err || !old(self).spec_enabled() ==> *final(self) == *old(self),
            result is Ok && old(self).spec_enabled() ==> {
                &&& final(self).spec_input_recorded()
                &&& final(self).spec_enabled()
                &&& final(self).spec_last_phase() == old(self).spec_last_phase()
                &&& final(self).spec_report() == (PushMetricsReport {
                    pack: PushPackMetrics {
                        request_bytes: request_bytes as u64,
                        pack_bytes: pack_bytes as u64,
                        ..old(self).spec_report().pack
                    },
                    ..old(self).spec_report()
                })
            },
    {
        if !self.enabled {
            return Ok(());
        }
        if let Err(error) = self.ensure_active() {
            return Err(error);
        }
        if self.input_recorded {
            return Err(PushMetricsError::AlreadyRecorded);
        }
        self.report.pack.request_bytes = request_bytes as u64;
        self.report.pack.pack_bytes = pack_bytes as u64;
        self.input_recorded = true;
        Ok(())
    }

    /// Adding these objects would take some PACK counter past 64 bits.
    pub open spec fn objects_overflow(
        pack: PushPackMetrics,
        direct: u64,
        ofs_deltas: u64,
        ref_deltas: u64,
        inflated_bytes: u64,
    ) -> bool {
        ||| pack.objects + direct + ofs_deltas + ref_deltas > u64::MAX
        ||| pack.direct_objects + direct > u64::MAX
        ||| pack.ofs_deltas + ofs_deltas > u64::MAX
        ||| pack.ref_deltas + ref_deltas > u64::MAX
        ||| pack.inflated_bytes + inflated_bytes > u64::MAX
    }

    /// Add decoded objects; a counter that would overflow leaves every counter unchanged.
    pub fn record_objects(
        &mut self,
        direct: u64,
        ofs_deltas: u64,
        ref_deltas: u64,
        inflated_bytes: u64,
        maximum_delta_depth: u32,
        maximum_delta_expansion_ratio: u64,
    ) -> (result: Result<(), PushMetricsError>)
        ensures
            old(self).total_last() ==> final(self).total_last(),
            result == if old(self).stopped() {
                Err::<(), PushMetricsError>(PushMetricsError::Finished)
            } else if old(self).spec_enabled() && Self::objects_overflow(
                old(self).spec_report().pack,
                direct,
                ofs_deltas,
                ref_deltas,
                inflated_bytes,
            ) {
                Err(PushMetricsError::Overflow(PushMetricCounter::Pack))
            } else {
                Ok(())
            },
            result is Err || !old(self).spec_enabled() ==> *final(self) == *old(self),
            final(self).same_but_report(*old(self)),
            result is Ok && old(self).spec_enabled() ==> {
                let before = old(self).spec_report().pack;
                final(self).spec_report() == (PushMetricsReport {
                    pack: PushPackMetrics {
                        objects: (before.objects + direct + ofs_deltas + ref_deltas) as u64,
                        direct_objects: (before.direct_objects + direct) as u64,
                        ofs_deltas: (before.ofs_deltas + ofs_deltas) as u64,
                        ref_deltas: (before.ref_deltas + ref_deltas) as u64,
                        inflated_bytes: (before.inflated_bytes + inflated_bytes) as u64,
                        maximum_delta_depth: if before.maximum_delta_depth >= maximum_delta_depth {
                            before.maximum_delta_depth
                        } else {
                            maximum_delta_depth
                        },
                        maximum_delta_expansion_ratio: larger(
                            before.maximum_delta_expansion_ratio,
                            maximum_delta_expansion_ratio,
                        ),
                        ..before
                    },
                    ..old(self).spec_report()
                })
            },
    {
        if !self.enabled {
            return Ok(());
        }
        if let Err(error) = self.ensure_active() {
            return Err(error);
        }
        let overflow = PushMetricsError::Overflow(PushMetricCounter::Pack);
        let current = self.report.pack;
        let added: u64 = match direct.checked_add(ofs_deltas) {
            Some(sum) => match sum.checked_add(ref_deltas) {
                Some(total) => total,
                None => {
                    return Err(overflow);
                },
            },
            None => {
                return Err(overflow);
            },
        };
        let objects: u64 = match current.objects.checked_add(added) {
            Some(total) => total,
            None => {
                return Err(overflow);
            },
        };
        let direct_objects: u64 = match current.direct_objects.checked_add(direct) {
            Some(total) => total,
            None => {
                return Err(overflow);
            },
        };
        let all_ofs: u64 = match current.ofs_deltas.checked_add(ofs_deltas) {
            Some(total) => total,
            None => {
                return Err(overflow);
            },
        };
        let all_ref: u64 = match current.ref_deltas.checked_add(ref_deltas) {
            Some(total) => total,
            None => {
                return Err(overflow);
            },
        };
        let inflated: u64 = match current.inflated_bytes.checked_add(inflated_bytes) {
            Some(total) => total,
            None => {
                return Err(overflow);
            },
        };
        self.report.pack = PushPackMetrics {
            request_bytes: current.request_bytes,
            pack_bytes: current.pack_bytes,
            objects,
            direct_objects,
            ofs_deltas: all_ofs,
            ref_deltas: all_ref,
            inflated_bytes: inflated,
            maximum_delta_depth: if current.maximum_delta_depth >= maximum_delta_depth {
                current.maximum_delta_depth
            } else {
                maximum_delta_depth
            },
            maximum_delta_expansion_ratio: max_u64(
                current.maximum_delta_expansion_ratio,
                maximum_delta_expansion_ratio,
            ),
        };
        Ok(())
    }

    /// Raise memory high-water marks without lowering any.
    pub fn observe_memory(
        &mut self,
        observation: PushMemoryMetrics,
    ) -> (result: Result<(), PushMetricsError>)
        ensures
            old(self).total_last() ==> final(self).total_last(),
            result == if old(self).stopped() {
                Err::<(), PushMetricsError>(PushMetricsError::Finished)
            } else if old(self).spec_enabled() && observation.structural_bytes
                + observation.prepared_bytes + observation.delta_base_bytes
                + observation.metadata_bytes > u64::MAX {
                Err(PushMetricsError::Overflow(PushMetricCounter::Memory))
            } else {
                Ok(())
            },
            result is Err || !old(self).spec_enabled() ==> *final(self) == *old(self),
            final(self).same_but_report(*old(self)),
            result is Ok && old(self).spec_enabled() ==> {
                let before = old(self).spec_report().memory;
                final(self).spec_report() == (PushMetricsReport {
                    memory: PushMemoryMetrics {
                        structural_bytes: larger(
                            before.structural_bytes,
                            observation.structural_bytes,
                        ),
                        prepared_bytes: larger(before.prepared_bytes, observation.prepared_bytes),
                        delta_base_bytes: larger(
                            before.delta_base_bytes,
                            observation.delta_base_bytes,
                        ),
                        metadata_bytes: larger(before.metadata_bytes, observation.metadata_bytes),
                        total_bytes: larger(
                            larger(before.total_bytes, observation.total_bytes),
                            (observation.structural_bytes + observation.prepared_bytes
                                + observation.delta_base_bytes + observation.metadata_bytes) as u64,
                        ),
                    },
                    ..old(self).spec_report()
                })
            },
    {
        if !self.enabled {
            return Ok(());
        }
        if let Err(error) = self.ensure_active() {
            return Err(error);
        }
        let overflow = PushMetricsError::Overflow(PushMetricCounter::Memory);
        let first: u64 = match observation.structural_bytes.checked_add(
            observation.prepared_bytes,
        ) {
            Some(sum) => sum,
            None => {
                return Err(overflow);
            },
        };
        let second: u64 = match first.checked_add(observation.delta_base_bytes) {
            Some(sum) => sum,
            None => {
                return Err(overflow);
            },
        };
        let component_total: u64 = match second.checked_add(observation.metadata_bytes) {
            Some(sum) => sum,
            None => {
                return Err(overflow);
            },
        };
        let before = self.report.memory;
        self.report.memory = PushMemoryMetrics {
            structural_bytes: max_u64(before.structural_bytes, observation.structural_bytes),
            prepared_bytes: max_u64(before.prepared_bytes, observation.prepared_bytes),
            delta_base_bytes: max_u64(before.delta_base_bytes, observation.delta_base_bytes),
            metadata_bytes: max_u64(before.metadata_bytes, observation.metadata_bytes),
            total_bytes: max_u64(
                max_u64(before.total_bytes, observation.total_bytes),
                component_total,
            ),
        };
        Ok(())
    }

    /// Add backend work; a counter that would overflow leaves every counter unchanged.
    pub fn record_backend(
        &mut self,
        observation: PushBackendMetrics,
    ) -> (result: Result<(), PushMetricsError>)
        ensures
            old(self).total_last() ==> final(self).total_last(),
            result == if old(self).stopped() {
                Err::<(), PushMetricsError>(PushMetricsError::Finished)
            } else if old(self).spec_enabled() && old(self).spec_report().backend.sum_overflows(
                observation,
            ) {
                Err(PushMetricsError::Overflow(PushMetricCounter::Backend))
            } else {
                Ok(())
            },
            result is Err || !old(self).spec_enabled() ==> *final(self) == *old(self),
            final(self).same_but_report(*old(self)),
            result is Ok && old(self).spec_enabled() ==> final(self).spec_report() == (
            PushMetricsReport {
                backend: old(self).spec_report().backend.sum(observation),
                ..old(self).spec_report()
            }),
    {
        if !self.enabled {
            return Ok(());
        }
        if let Err(error) = self.ensure_active() {
            return Err(error);
        }
        let counter = PushMetricCounter::Backend;
        let current = self.report.backend;
        let next = PushBackendMetrics {
            sql_statements: checked_metric(
                current.sql_statements,
                observation.sql_statements,
                counter,
            )?,
            sql_rows: checked_metric(current.sql_rows, observation.sql_rows, counter)?,
            sql_transactions: checked_metric(
                current.sql_transactions,
                observation.sql_transactions,
                counter,
            )?,
            sql_bytes: checked_metric(current.sql_bytes, observation.sql_bytes, counter)?,
            object_reads: checked_metric(current.object_reads, observation.object_reads, counter)?,
            object_writes: checked_metric(
                current.object_writes,
                observation.object_writes,
                counter,
            )?,
            object_bytes: checked_metric(current.object_bytes, observation.object_bytes, counter)?,
            range_reads: checked_metric(current.range_reads, observation.range_reads, counter)?,
            range_bytes: checked_metric(current.range_bytes, observation.range_bytes, counter)?,
            external_gets: checked_metric(
                current.external_gets,
                observation.external_gets,
                counter,
            )?,
            external_puts: checked_metric(
                current.external_puts,
                observation.external_puts,
                counter,
            )?,
            external_bytes: checked_metric(
                current.external_bytes,
                observation.external_bytes,
                counter,
            )?,
        };
        self.report.backend = next;
        Ok(())
    }

    /// Add quarantine volumes; a counter that would overflow leaves every counter unchanged.
    pub fn record_quarantine(
        &mut self,
        observation: PushQuarantineMetrics,
    ) -> (result: Result<(), PushMetricsError>)
        ensures
            old(self).total_last() ==> final(self).total_last(),
            result == if old(self).stopped() {
                Err::<(), PushMetricsError>(PushMetricsError::Finished)
            } else if old(self).spec_enabled() && old(self).spec_report().quarantine.sum_overflows(
                observation,
            ) {
                Err(PushMetricsError::Overflow(PushMetricCounter::Quarantine))
            } else {
                Ok(())
            },
            result is Err || !old(self).spec_enabled() ==> *final(self) == *old(self),
            final(self).same_but_report(*old(self)),
            result is Ok && old(self).spec_enabled() ==> final(self).spec_report() == (
            PushMetricsReport {
                quarantine: old(self).spec_report().quarantine.sum(observation),
                ..old(self).spec_report()
            }),
    {
        if !self.enabled {
            return Ok(());
        }
        if let Err(error) = self.ensure_active() {
            return Err(error);
        }
        let counter = PushMetricCounter::Quarantine;
        let current = self.report.quarantine;
        let next = PushQuarantineMetrics {
            appended_bytes: checked_metric(
                current.appended_bytes,
                observation.appended_bytes,
                counter,
            )?,
            promoted_bytes: checked_metric(
                current.promoted_bytes,
                observation.promoted_bytes,
                counter,
            )?,
            cleanup_bytes: checked_metric(
                current.cleanup_bytes,
                observation.cleanup_bytes,
                counter,
            )?,
            orphan_bytes: checked_metric(current.orphan_bytes, observation.orphan_bytes, counter)?,
        };
        self.report.quarantine = next;
        Ok(())
    }

    /// Why one phase observation is refused, if it is.
    pub open spec fn phase_fault(self, phase: PushPhase, duration: Duration) -> Option<
        PushMetricsError,
    > {
        let phases = self.spec_report().phases;
        if self.spec_report().outcome is Some {
            Some(PushMetricsError::Finished)
        } else if self.spec_last_phase() is Some && phase.spec_rank()
            <= self.spec_last_phase()->0.spec_rank() {
            Some(PushMetricsError::InvalidPhaseTransition)
        } else if phase != PushPhase::Total && phases.total is Some && duration.nanos
            > phases.total->0.nanos {
            Some(PushMetricsError::DurationExceedsTotal)
        } else if phase == PushPhase::Total && phases.component_nanos() > MAX_DURATION_NANOS {
            Some(PushMetricsError::DurationOverflow)
        } else if phase == PushPhase::Total && phases.component_nanos() > duration.nanos {
            Some(PushMetricsError::DurationExceedsTotal)
        } else {
            None
        }
    }

    /// Record one phase duration; phases go forward only, and the total covers its components.
    pub fn record_phase(
        &mut self,
        phase: PushPhase,
        duration: Duration,
    ) -> (result: Result<(), PushMetricsError>)
        ensures
            old(self).total_last() ==> final(self).total_last(),
            result == if old(self).spec_enabled() && old(self).phase_fault(
                phase,
                duration,
            ) is Some {
                Err::<(), PushMetricsError>(old(self).phase_fault(phase, duration)->0)
            } else {
                Ok(())
            },
            result is Err || !old(self).spec_enabled() ==> *final(self) == *old(self),
            result is Ok && old(self).spec_enabled() ==> {
                &&& final(self).spec_enabled()
                &&& final(self).spec_input_recorded() == old(self).spec_input_recorded()
                &&& final(self).spec_last_phase() == Some(phase)
                &&& final(self).spec_report() == (PushMetricsReport {
                    phases: old(self).spec_report().phases.with(phase, duration),
                    ..old(self).spec_report()
                })
            },
    {
        if !self.enabled {
            return Ok(());
        }
        if let Err(error) = self.ensure_active() {
            return Err(error);
        }
        if let Some(last) = self.last_phase {
            if phase.rank() <= last.rank() {
                return Err(PushMetricsError::InvalidPhaseTransition);
            }
        }
        if phase != PushPhase::Total {
            if let Some(total) = self.report.phases.total {
                if duration.nanos > total.nanos {
                    return Err(PushMetricsError::DurationExceedsTotal);
                }
            }
        } else {
            let components = self.report.phases;
            let total: Duration = match sum_components(components) {
                Some(sum) => sum,
                None => {
                    return Err(PushMetricsError::DurationOverflow);
                },
            };
            if total.nanos > duration.nanos {
                return Err(PushMetricsError::DurationExceedsTotal);
            }
        }
        match phase {
            PushPhase::Request => {
                self.report.phases.request = Some(duration);
            },
            PushPhase::Quarantine => {
                self.report.phases.quarantine = Some(duration);
            },
            PushPhase::Validation => {
                self.report.phases.validation = Some(duration);
            },
            PushPhase::Policy => {
                self.report.phases.policy = Some(duration);
            },
            PushPhase::DurableInstall => {
                self.report.phases.durable_install = Some(duration);
            },
            PushPhase::RefPublication => {
                self.report.phases.ref_publication = Some(duration);
            },
            PushPhase::Cleanup => {
                self.report.phases.cleanup = Some(duration);
            },
            PushPhase::Total => {
                self.report.phases.total = Some(duration);
            },
        }
        self.last_phase = Some(phase);
        Ok(())
    }

    /// Set the first terminal outcome and return the report; later outcomes change nothing.
    pub fn finish(&mut self, outcome: PushOutcome) -> (report: PushMetricsReport)
        ensures
            old(self).total_last() ==> final(self).total_last(),
            final(self).same_but_report(*old(self)),
            report == final(self).spec_report(),
            report == if old(self).spec_enabled() {
                finished(old(self).spec_report(), outcome)
            } else {
                old(self).spec_report()
            },
    {
        if self.enabled && self.report.outcome.is_none() {
            self.report.outcome = Some(outcome);
        }
        self.report
    }

    /// Return the report so far.
    pub fn snapshot(&self) -> (report: PushMetricsReport)
        ensures
            report == self.spec_report(),
    {
        self.report
    }

    fn ensure_active(&self) -> (result: Result<(), PushMetricsError>)
        ensures
            result == if self.report.outcome is Some {
                Err::<(), PushMetricsError>(PushMetricsError::Finished)
            } else {
                Ok(())
            },
    {
        if self.report.outcome.is_some() {
            return Err(PushMetricsError::Finished);
        }
        Ok(())
    }
}

impl PushBackendMetrics {
    /// Adding another observation would take some counter past 64 bits.
    pub open spec fn sum_overflows(self, other: PushBackendMetrics) -> bool {
        ||| self.sql_statements + other.sql_statements > u64::MAX
        ||| self.sql_rows + other.sql_rows > u64::MAX
        ||| self.sql_transactions + other.sql_transactions > u64::MAX
        ||| self.sql_bytes + other.sql_bytes > u64::MAX
        ||| self.object_reads + other.object_reads > u64::MAX
        ||| self.object_writes + other.object_writes > u64::MAX
        ||| self.object_bytes + other.object_bytes > u64::MAX
        ||| self.range_reads + other.range_reads > u64::MAX
        ||| self.range_bytes + other.range_bytes > u64::MAX
        ||| self.external_gets + other.external_gets > u64::MAX
        ||| self.external_puts + other.external_puts > u64::MAX
        ||| self.external_bytes + other.external_bytes > u64::MAX
    }

    /// Both observations together.
    pub open spec fn sum(self, other: PushBackendMetrics) -> PushBackendMetrics {
        PushBackendMetrics {
            sql_statements: (self.sql_statements + other.sql_statements) as u64,
            sql_rows: (self.sql_rows + other.sql_rows) as u64,
            sql_transactions: (self.sql_transactions + other.sql_transactions) as u64,
            sql_bytes: (self.sql_bytes + other.sql_bytes) as u64,
            object_reads: (self.object_reads + other.object_reads) as u64,
            object_writes: (self.object_writes + other.object_writes) as u64,
            object_bytes: (self.object_bytes + other.object_bytes) as u64,
            range_reads: (self.range_reads + other.range_reads) as u64,
            range_bytes: (self.range_bytes + other.range_bytes) as u64,
            external_gets: (self.external_gets + other.external_gets) as u64,
            external_puts: (self.external_puts + other.external_puts) as u64,
            external_bytes: (self.external_bytes + other.external_bytes) as u64,
        }
    }
}

impl PushQuarantineMetrics {
    /// Adding another observation would take some counter past 64 bits.
    pub open spec fn sum_overflows(self, other: PushQuarantineMetrics) -> bool {
        ||| self.appended_bytes + other.appended_bytes > u64::MAX
        ||| self.promoted_bytes + other.promoted_bytes > u64::MAX
        ||| self.cleanup_bytes + other.cleanup_bytes > u64::MAX
        ||| self.orphan_bytes + other.orphan_bytes > u64::MAX
    }

    /// Both observations together.
    pub open spec fn sum(self, other: PushQuarantineMetrics) -> PushQuarantineMetrics {
        PushQuarantineMetrics {
            appended_bytes: (self.appended_bytes + other.appended_bytes) as u64,
            promoted_bytes: (self.promoted_bytes + other.promoted_bytes) as u64,
            cleanup_bytes: (self.cleanup_bytes + other.cleanup_bytes) as u64,
            orphan_bytes: (self.orphan_bytes + other.orphan_bytes) as u64,
        }
    }
}

/// Add one observation that may be missing.
fn add_observation(sum: Option<Duration>, observation: Option<Duration>) -> (total: Option<
    Duration,
>)
    ensures
        sum is Some && sum->0.nanos <= MAX_DURATION_NANOS ==> match total {
            Some(span) => span.nanos == sum->0.nanos + observed_nanos(observation) && span.nanos
                <= MAX_DURATION_NANOS,
            None => sum->0.nanos + observed_nanos(observation) > MAX_DURATION_NANOS,
        },
        sum is None ==> total is None,
{
    match sum {
        Some(current) => match observation {
            Some(span) => current.checked_add(span),
            None => Some(current),
        },
        None => None,
    }
}

/// Add every component phase.
fn sum_components(phases: PushPhaseMetrics) -> (total: Option<Duration>)
    ensures
        match total {
            Some(span) => span.nanos == phases.component_nanos() && span.nanos
                <= MAX_DURATION_NANOS,
            None => phases.component_nanos() > MAX_DURATION_NANOS,
        },
{
    let zero = Some(Duration { nanos: 0 });
    let one = add_observation(zero, phases.request);
    let two = add_observation(one, phases.quarantine);
    let three = add_observation(two, phases.validation);
    let four = add_observation(three, phases.policy);
    let five = add_observation(four, phases.durable_install);
    let six = add_observation(five, phases.ref_publication);
    add_observation(six, phases.cleanup)
}

/// Add to one counter.
fn checked_metric(
    current: u64,
    additional: u64,
    counter: PushMetricCounter,
) -> (result: Result<u64, PushMetricsError>)
    ensures
        result == if current + additional > u64::MAX {
            Err::<u64, PushMetricsError>(PushMetricsError::Overflow(counter))
        } else {
            Ok((current + additional) as u64)
        },
{
    match current.checked_add(additional) {
        Some(sum) => Ok(sum),
        None => Err(PushMetricsError::Overflow(counter)),
    }
}

} // verus!
