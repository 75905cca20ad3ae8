//! Bounded output boundary for pack streaming.
//!
//! A `write_chunk` call is the backpressure point: it returns once the bytes are accepted into the
//! sink's bounded output path. Nothing here spawns tasks, reads clocks or knows a transport.

use crate::bytes::append_bytes;
use std::sync::atomic::{AtomicBool, Ordering};
use std::sync::Arc;
use vstd::prelude::*;

verus! {

/// Pack-stream resource limits.
#[derive(Clone, Copy, Debug, PartialEq, Eq, Structural)]
pub struct PackStreamLimits {
    /// Largest chunk accepted by a sink.
    pub max_chunk_bytes: usize,
    /// Largest complete response accepted by a sink.
    pub max_total_bytes: u64,
    /// Maximum bytes a producer may queue awaiting a transport sink.
    pub max_queued_bytes: usize,
    /// Maximum bytes owned by all in-flight output stages.
    pub max_in_flight_bytes: usize,
    /// Maximum emitted bytes between cancellation checks.
    pub cancellation_checkpoint_bytes: u64,
}

impl PackStreamLimits {
    /// Absolute ceilings accepted by [`Self::validate`].
    pub open spec fn spec_hard_max() -> PackStreamLimits {
        PackStreamLimits {
            max_chunk_bytes: 16_777_216,
            max_total_bytes: 17_592_186_044_416,
            max_queued_bytes: 1_073_741_824,
            max_in_flight_bytes: if usize::MAX >= 4_294_967_296 {
                4_294_967_296u64 as usize
            } else {
                usize::MAX
            },
            cancellation_checkpoint_bytes: 1_073_741_824,
        }
    }

    /// Return the absolute ceilings accepted by [`Self::validate`].
    pub fn hard_max() -> (limits: PackStreamLimits)
        ensures
            limits == Self::spec_hard_max(),
    {
        PackStreamLimits {
            max_chunk_bytes: 16_777_216,
            max_total_bytes: 17_592_186_044_416,
            max_queued_bytes: 1_073_741_824,
            max_in_flight_bytes: if usize::MAX as u64 >= 4_294_967_296 {
                4_294_967_296u64 as usize
            } else {
                usize::MAX
            },
            cancellation_checkpoint_bytes: 1_073_741_824,
        }
    }

    /// The limits are nonzero, ordered and within the ceilings.
    pub open spec fn valid(self) -> bool {
        let hard = Self::spec_hard_max();
        &&& 0 < self.max_chunk_bytes <= self.max_queued_bytes <= self.max_in_flight_bytes
        &&& 0 < self.max_total_bytes <= hard.max_total_bytes
        &&& 0 < self.cancellation_checkpoint_bytes <= hard.cancellation_checkpoint_bytes
        &&& self.max_chunk_bytes <= self.cancellation_checkpoint_bytes
        &&& self.max_chunk_bytes <= hard.max_chunk_bytes
        &&& self.max_queued_bytes <= hard.max_queued_bytes
        &&& self.max_in_flight_bytes <= hard.max_in_flight_bytes
    }

    /// Validate nonzero, ordered limits before allocating buffers.
    pub fn validate(self) -> (result: Result<Self, PackStreamError>)
        ensures
            result == if self.valid() {
                Ok::<Self, PackStreamError>(self)
            } else {
                Err(PackStreamError::InvalidLimits)
            },
    {
        let hard = Self::hard_max();
        if self.max_chunk_bytes == 0 || self.max_total_bytes == 0 || self.max_queued_bytes == 0
            || self.max_in_flight_bytes == 0 || self.cancellation_checkpoint_bytes == 0
            || self.max_chunk_bytes > self.max_queued_bytes || self.max_queued_bytes
            > self.max_in_flight_bytes || self.max_chunk_bytes as u64
            > self.cancellation_checkpoint_bytes || self.max_chunk_bytes > hard.max_chunk_bytes
            || self.max_total_bytes > hard.max_total_bytes || self.max_queued_bytes
            > hard.max_queued_bytes || self.max_in_flight_bytes > hard.max_in_flight_bytes
            || self.cancellation_checkpoint_bytes > hard.cancellation_checkpoint_bytes {
            return Err(PackStreamError::InvalidLimits);
        }
        Ok(self)
    }
}

impl Default for PackStreamLimits {
    fn default() -> (limits: Self)
        ensures
            limits == spec_default_limits(),
    {
        PackStreamLimits {
            max_chunk_bytes: 65_536,
            max_total_bytes: 274_877_906_944,
            max_queued_bytes: 4_194_304,
            max_in_flight_bytes: 67_108_864,
            cancellation_checkpoint_bytes: 1_048_576,
        }
    }
}

/// The limits that a server runs with unless configured otherwise.
pub open spec fn spec_default_limits() -> PackStreamLimits {
    PackStreamLimits {
        max_chunk_bytes: 65_536,
        max_total_bytes: 274_877_906_944,
        max_queued_bytes: 4_194_304,
        max_in_flight_bytes: 67_108_864,
        cancellation_checkpoint_bytes: 1_048_576,
    }
}

/// The ceilings and the defaults are themselves valid limits.
pub proof fn law_known_limits_are_valid()
    ensures
        PackStreamLimits::spec_hard_max().valid(),
        spec_default_limits().valid(),
{
}

/// Non-sensitive terminal abort category.
#[derive(Clone, Copy, Debug, PartialEq, Eq, Structural)]
pub enum PackAbortReason {
    /// Caller cancellation was observed.
    Cancelled,
    /// Client transport disconnected.
    ClientDisconnected,
    /// A validated stream limit was reached.
    LimitExceeded,
    /// A storage read failed.
    BackendFailure,
    /// Pack encoding failed after streaming began.
    EncodingFailure,
    /// Output transport failed.
    SinkFailure,
}

/// State of one sink.
#[derive(Clone, Copy, Debug, PartialEq, Eq, Structural)]
pub enum PackSinkState {
    /// Chunks may be written.
    Open,
    /// `finish` completed.
    Finished,
    /// The stream was aborted.
    Aborted(PackAbortReason),
}

impl Default for PackSinkState {
    fn default() -> (state: Self)
        ensures
            state == PackSinkState::Open,
    {
        PackSinkState::Open
    }
}

/// Sink operation rejected by the state machine.
#[derive(Clone, Copy, Debug, PartialEq, Eq, Structural)]
pub enum PackSinkOperation {
    /// Write a data chunk.
    Write,
    /// Finish the response.
    Finish,
    /// Abort the response.
    Abort,
}

/// Pack stream boundary failure.
#[derive(Clone, Copy, Debug, PartialEq, Eq, Structural)]
pub enum PackStreamError {
    /// Stream limits are zero, inconsistent or above a ceiling.
    InvalidLimits,
    /// An operation was attempted after finish or abort.
    InvalidState {
        /// Attempted operation.
        operation: PackSinkOperation,
        /// Current sink state.
        state: PackSinkState,
    },
    /// One chunk exceeded the configured per-call bound.
    ChunkTooLarge,
    /// The next chunk would exceed the configured response bound.
    TotalLimit,
    /// Byte accounting overflowed.
    ByteOverflow,
    /// A bounded buffer could not reserve memory.
    Allocation,
    /// A transport sink failed.
    SinkFailure,
    /// Cancellation was observed at a checkpoint.
    Cancelled,
}

/// Observable stream counters.
#[derive(Clone, Copy, Debug, PartialEq, Eq, Structural)]
pub struct PackStreamReport {
    /// Bytes accepted by completed `write_chunk` calls.
    pub emitted_bytes: u64,
    /// Completed nonempty chunk writes.
    pub emitted_chunks: u64,
    /// Whether `finish` succeeded.
    pub finished: bool,
    /// Terminal abort category, if any.
    pub aborted: Option<PackAbortReason>,
    /// Cancellation checks of a merged gate.
    pub cancellation_checks: u64,
    /// Whether a check observed cancellation.
    pub cancellation_observed: bool,
}

/// Counters of a stream of which nothing happened.
pub open spec fn empty_stream_report() -> PackStreamReport {
    PackStreamReport {
        emitted_bytes: 0,
        emitted_chunks: 0,
        finished: false,
        aborted: None,
        cancellation_checks: 0,
        cancellation_observed: false,
    }
}

impl Default for PackStreamReport {
    fn default() -> (report: Self)
        ensures
            report == empty_stream_report(),
    {
        PackStreamReport {
            emitted_bytes: 0,
            emitted_chunks: 0,
            finished: false,
            aborted: None,
            cancellation_checks: 0,
            cancellation_observed: false,
        }
    }
}

impl PackStreamReport {
    /// Merge cancellation counters from the producer's gate; an overflow changes nothing.
    pub fn merge_cancellation(
        &mut self,
        cancellation: CancellationReport,
    ) -> (result: Result<(), PackStreamError>)
        ensures
            result == if old(self).cancellation_checks + cancellation.checks > u64::MAX {
                Err::<(), PackStreamError>(PackStreamError::ByteOverflow)
            } else {
                Ok(())
            },
            result is Err ==> *final(self) == *old(self),
            result is Ok ==> *final(self) == (PackStreamReport {
                cancellation_checks: (old(self).cancellation_checks + cancellation.checks) as u64,
                cancellation_observed: old(self).cancellation_observed || cancellation.observed,
                ..*old(self)
            }),
    {
        match self.cancellation_checks.checked_add(cancellation.checks) {
            Some(checks) => {
                self.cancellation_checks = checks;
                self.cancellation_observed = self.cancellation_observed || cancellation.observed;
                Ok(())
            },
            None => Err(PackStreamError::ByteOverflow),
        }
    }
}

/// Output boundary implemented by buffered and transport-backed sinks.
///
/// A write error accepts no bytes from that call and leaves the sink aborted, except
/// [`PackStreamError::InvalidState`], which keeps the terminal state.
pub trait PackChunkSink {
    /// The sink's state.
    closed spec fn spec_state(&self) -> PackSinkState {
        PackSinkState::Open
    }

    /// The sink's counters.
    closed spec fn spec_report(&self) -> PackStreamReport {
        empty_stream_report()
    }

    /// Every byte accepted so far, while the sink is open or finished.
    closed spec fn accepted(&self) -> Seq<u8> {
        Seq::empty()
    }

    /// A write of these bytes may be answered so.
    closed spec fn answers_write(
        &self,
        bytes: Seq<u8>,
        answer: Result<(), PackStreamError>,
    ) -> bool {
        true
    }

    /// Write one bounded chunk.
    fn write_chunk(&mut self, bytes: &[u8]) -> (result: Result<(), PackStreamError>)
        ensures
            old(self).answers_write(bytes@, result),
            result is Ok ==> {
                &&& old(self).spec_state() is Open
                &&& final(self).spec_state() is Open
                &&& final(self).accepted() == old(self).accepted() + bytes@
                &&& final(self).spec_report().emitted_bytes == old(self).spec_report().emitted_bytes + bytes@.len()
            },
            result is Err ==> {
                &&& final(self).spec_state() !is Open
                &&& final(self).spec_report().emitted_bytes == old(self).spec_report().emitted_bytes
                &&& old(self).spec_state() !is Open ==> final(self).spec_state() == old(self).spec_state()
            },
    ;

    /// A finish may be answered so.
    closed spec fn answers_finish(&self, answer: Result<(), PackStreamError>) -> bool {
        true
    }

    /// Publish successful completion exactly once.
    fn finish(&mut self) -> (result: Result<(), PackStreamError>)
        ensures
            old(self).answers_finish(result),
            result is Ok ==> {
                &&& old(self).spec_state() is Open
                &&& final(self).spec_state() is Finished
                &&& final(self).accepted() == old(self).accepted()
            },
            result is Err ==> final(self).spec_state() !is Open,
            final(self).spec_report().emitted_bytes == old(self).spec_report().emitted_bytes,
    ;

    /// Terminate the stream exactly once.
    fn abort(&mut self, reason: PackAbortReason) -> (result: Result<(), PackStreamError>)
        ensures
            result is Ok <==> old(self).spec_state() is Open,
            result is Ok ==> final(self).spec_state() == PackSinkState::Aborted(reason),
            result is Err ==> final(self).spec_state() == old(self).spec_state(),
            final(self).spec_report().emitted_bytes == old(self).spec_report().emitted_bytes,
    ;

    /// Return the state.
    fn state(&self) -> (state: PackSinkState)
        ensures
            state == self.spec_state(),
    ;

    /// Return the counters; while the sink is open they count every accepted byte.
    fn report(&self) -> (report: PackStreamReport)
        ensures
            report == self.spec_report(),
            self.spec_state() is Open ==> report.emitted_bytes == self.accepted().len(),
    ;
}

/// Cancellation observation boundary.
pub trait CancellationProbe {
    /// The probe may answer so.
    closed spec fn signals(cancelled: bool) -> bool {
        true
    }

    /// Return whether cancellation has been requested.
    fn is_cancelled(&self) -> (cancelled: bool)
        ensures
            Self::signals(cancelled),
    ;
}

/// Cloneable cancellation token backed by an atomic flag.
#[derive(Clone, Debug)]
pub struct PackCancellationToken {
    cancelled: Arc<AtomicBool>,
}

impl PackCancellationToken {
    /// Create a token that is not cancelled.
    pub fn new() -> PackCancellationToken {
        PackCancellationToken { cancelled: Arc::new(AtomicBool::new(false)) }
    }

    /// Request cancellation. Repeating the call is harmless.
    pub fn cancel(&self) {
        self.cancelled.store(true, Ordering::Release);
    }
}

impl CancellationProbe for PackCancellationToken {
    fn is_cancelled(&self) -> bool {
        self.cancelled.load(Ordering::Acquire)
    }
}

/// Cancellation probe that never cancels.
#[derive(Clone, Copy, Debug)]
pub struct NeverCancel;

impl CancellationProbe for NeverCancel {
    open spec fn signals(cancelled: bool) -> bool {
        !cancelled
    }

    fn is_cancelled(&self) -> bool {
        false
    }
}

/// Cancellation checkpoint counters.
#[derive(Clone, Copy, Debug, PartialEq, Eq, Structural)]
pub struct CancellationReport {
    /// Probe calls performed.
    pub checks: u64,
    /// Whether cancellation was observed.
    pub observed: bool,
}

/// Byte-interval cancellation helper for a pack writer.
#[derive(Clone, Debug)]
pub struct CancellationGate<P> {
    probe: P,
    max_observation_bytes: u64,
    checkpoint_bytes: u64,
    bytes_since_check: u64,
    report: CancellationReport,
}

impl<P: CancellationProbe> CancellationGate<P> {
    /// The largest progress one call may report.
    pub closed spec fn spec_max_observation(self) -> u64 {
        self.max_observation_bytes
    }

    /// The progress between two checks.
    pub closed spec fn spec_checkpoint(self) -> u64 {
        self.checkpoint_bytes
    }

    /// The progress since the latest interval ended.
    pub closed spec fn spec_since_check(self) -> u64 {
        self.bytes_since_check
    }

    /// The counters.
    pub closed spec fn spec_report(self) -> CancellationReport {
        self.report
    }

    /// Less than one interval has passed since the latest interval ended.
    pub open spec fn wf(self) -> bool {
        &&& self.spec_since_check() < self.spec_checkpoint()
        &&& self.spec_max_observation() <= self.spec_checkpoint() <= 1_073_741_824
    }

    /// Both have the same limits; progress and counters may differ.
    pub open spec fn same_limits(self, other: Self) -> bool {
        &&& self.spec_max_observation() == other.spec_max_observation()
        &&& self.spec_checkpoint() == other.spec_checkpoint()
    }

    /// Build a gate from validated stream limits and a probe.
    pub fn new(probe: P, limits: PackStreamLimits) -> (result: Result<Self, PackStreamError>)
        ensures
            result is Ok <==> limits.valid(),
            match result {
                Ok(gate) => {
                    &&& gate.wf()
                    &&& gate.spec_max_observation() == limits.max_chunk_bytes
                    &&& gate.spec_checkpoint() == limits.cancellation_checkpoint_bytes
                    &&& gate.spec_since_check() == 0
                    &&& gate.spec_report() == (CancellationReport { checks: 0, observed: false })
                },
                Err(error) => error == PackStreamError::InvalidLimits,
            },
    {
        let limits = match limits.validate() {
            Ok(limits) => limits,
            Err(error) => {
                return Err(error);
            },
        };
        Ok(
            CancellationGate {
                probe,
                max_observation_bytes: limits.max_chunk_bytes as u64,
                checkpoint_bytes: limits.cancellation_checkpoint_bytes,
                bytes_since_check: 0,
                report: CancellationReport { checks: 0, observed: false },
            },
        )
    }

    /// Account progress and check cancellation when the interval is reached.
    ///
    /// Progress beyond the largest observation is refused and not accounted. Below the interval no
    /// check is made; at the interval one check is made and the remainder carries over.
    pub fn observe_bytes(&mut self, bytes: u64) -> (result: Result<(), PackStreamError>)
        requires
            old(self).wf(),
        ensures
            final(self).wf(),
            final(self).same_limits(*old(self)),
            Self::observed(*old(self), *final(self), bytes, result),
    {
        if bytes > self.max_observation_bytes {
            return Err(PackStreamError::ChunkTooLarge);
        }
        match self.bytes_since_check.checked_add(bytes) {
            Some(total) => {
                self.bytes_since_check = total;
            },
            None => {
                return Err(PackStreamError::ByteOverflow);
            },
        }
        if self.bytes_since_check < self.checkpoint_bytes {
            return Ok(());
        }
        proof {
            assert(self.bytes_since_check % self.checkpoint_bytes == self.bytes_since_check
                - self.checkpoint_bytes) by (nonlinear_arith)
                requires
                    self.checkpoint_bytes <= self.bytes_since_check < 2 * self.checkpoint_bytes,
            ;
        }
        self.bytes_since_check = self.bytes_since_check % self.checkpoint_bytes;
        self.check_now()
    }

    /// What accounting for progress does: too much is refused, less than an interval is added, and
    /// at an interval one check is made.
    pub open spec fn observed(
        before: Self,
        after: Self,
        bytes: u64,
        result: Result<(), PackStreamError>,
    ) -> bool {
        if bytes > before.spec_max_observation() {
            result == Err::<(), PackStreamError>(PackStreamError::ChunkTooLarge) && after == before
        } else if before.spec_since_check() + bytes < before.spec_checkpoint() {
            &&& result is Ok
            &&& after.spec_since_check() == before.spec_since_check() + bytes
            &&& after.spec_report() == before.spec_report()
        } else {
            &&& after.spec_since_check() == before.spec_since_check() + bytes
                - before.spec_checkpoint()
            &&& Self::checked(before.spec_report(), after.spec_report(), result)
        }
    }

    /// What one check does to the counters: it is counted, and cancellation is remembered exactly
    /// when it is reported.
    pub open spec fn checked(
        before: CancellationReport,
        after: CancellationReport,
        result: Result<(), PackStreamError>,
    ) -> bool {
        if before.checks == u64::MAX {
            result == Err::<(), PackStreamError>(PackStreamError::ByteOverflow) && after == before
        } else {
            &&& after.checks == before.checks + 1
            &&& result is Ok ==> after.observed == before.observed && P::signals(false)
            &&& result is Err ==> result == Err::<(), PackStreamError>(PackStreamError::Cancelled)
                && after.observed && P::signals(true)
        }
    }

    /// Check immediately.
    pub fn check_now(&mut self) -> (result: Result<(), PackStreamError>)
        ensures
            final(self).same_limits(*old(self)),
            final(self).spec_since_check() == old(self).spec_since_check(),
            Self::checked(old(self).spec_report(), final(self).spec_report(), result),
    {
        if self.report.checks == u64::MAX {
            return Err(PackStreamError::ByteOverflow);
        }
        let cancelled = self.probe.is_cancelled();
        self.record_check(cancelled)
    }

    /// Count one check whose probe answered `cancelled`.
    pub fn record_check(&mut self, cancelled: bool) -> (result: Result<(), PackStreamError>)
        ensures
            final(self).same_limits(*old(self)),
            final(self).spec_since_check() == old(self).spec_since_check(),
            old(self).spec_report().checks == u64::MAX ==> result == Err::<(), PackStreamError>(
                PackStreamError::ByteOverflow,
            ) && *final(self) == *old(self),
            old(self).spec_report().checks < u64::MAX ==> {
                &&& result == if cancelled {
                    Err::<(), PackStreamError>(PackStreamError::Cancelled)
                } else {
                    Ok(())
                }
                &&& final(self).spec_report() == (CancellationReport {
                    checks: (old(self).spec_report().checks + 1) as u64,
                    observed: old(self).spec_report().observed || cancelled,
                })
            },
    {
        match self.report.checks.checked_add(1) {
            Some(checks) => {
                self.report.checks = checks;
            },
            None => {
                return Err(PackStreamError::ByteOverflow);
            },
        }
        if cancelled {
            self.report.observed = true;
            return Err(PackStreamError::Cancelled);
        }
        Ok(())
    }

    /// Return the counters.
    pub fn report(&self) -> (report: CancellationReport)
        ensures
            report == self.spec_report(),
    {
        self.report
    }
}

/// Buffered sink that publishes bytes only after a successful finish.
#[derive(Debug)]
pub struct BoundedVecPackSink {
    limits: PackStreamLimits,
    staging: Vec<u8>,
    published: Option<Vec<u8>>,
    state: PackSinkState,
    report: PackStreamReport,
}

impl BoundedVecPackSink {
    /// The sink's limits.
    pub closed spec fn spec_limits(self) -> PackStreamLimits {
        self.limits
    }

    /// The bytes that a reader may see.
    pub closed spec fn spec_published(self) -> Option<Seq<u8>> {
        match self.published {
            Some(bytes) => Some(bytes@),
            None => None,
        }
    }

    #[verifier::type_invariant]
    spec fn consistent(self) -> bool {
        &&& self.state is Finished <==> self.published is Some
        &&& self.state is Open ==> self.report.emitted_bytes == self.staging@.len()
    }

    /// Create an empty bounded sink without allocating the response maximum.
    pub fn new(limits: PackStreamLimits) -> (result: Result<Self, PackStreamError>)
        ensures
            result is Ok <==> limits.valid(),
            match result {
                Ok(sink) => {
                    &&& sink.spec_limits() == limits
                    &&& sink.spec_state() is Open
                    &&& sink.spec_report() == empty_stream_report()
                    &&& sink.accepted() == Seq::<u8>::empty()
                    &&& sink.spec_published() is None
                },
                Err(error) => error == PackStreamError::InvalidLimits,
            },
    {
        let limits = match limits.validate() {
            Ok(limits) => limits,
            Err(error) => {
                return Err(error);
            },
        };
        Ok(
            BoundedVecPackSink {
                limits,
                staging: Vec::new(),
                published: None,
                state: PackSinkState::Open,
                report: PackStreamReport::default(),
            },
        )
    }

    /// Borrow published bytes after a successful finish.
    pub fn bytes(&self) -> (bytes: Option<&[u8]>)
        ensures
            bytes is Some <==> self.spec_state() is Finished,
            bytes is Some ==> bytes->0@ == self.accepted() && Some(bytes->0@)
                == self.spec_published(),
    {
        proof {
            use_type_invariant(self);
        }
        match &self.published {
            Some(bytes) => Some(bytes.as_slice()),
            None => None,
        }
    }

    /// Consume the sink and return its bytes if it finished.
    pub fn into_bytes(self) -> (result: Result<Vec<u8>, PackStreamError>)
        ensures
            match result {
                Ok(bytes) => self.spec_state() is Finished && bytes@ == self.accepted(),
                Err(error) => self.spec_state() !is Finished && error
                    == (PackStreamError::InvalidState {
                    operation: PackSinkOperation::Finish,
                    state: self.spec_state(),
                }),
            },
    {
        proof {
            use_type_invariant(&self);
        }
        match self.published {
            Some(bytes) => Ok(bytes),
            None => Err(
                PackStreamError::InvalidState {
                    operation: PackSinkOperation::Finish,
                    state: self.state,
                },
            ),
        }
    }

    fn require_open(&self, operation: PackSinkOperation) -> (result: Result<(), PackStreamError>)
        ensures
            result == if self.spec_state() is Open {
                Ok::<(), PackStreamError>(())
            } else {
                Err(PackStreamError::InvalidState { operation, state: self.spec_state() })
            },
    {
        if self.state != PackSinkState::Open {
            return Err(PackStreamError::InvalidState { operation, state: self.state });
        }
        Ok(())
    }

    fn fail_write(
        &mut self,
        error: PackStreamError,
        reason: PackAbortReason,
    ) -> (failure: PackStreamError)
        requires
            old(self).spec_state() is Open,
        ensures
            failure == error,
            final(self).aborted_from(*old(self), reason),
    {
        proof {
            use_type_invariant(&*self);
        }
        self.state = PackSinkState::Aborted(reason);
        self.staging = Vec::new();
        self.report.aborted = Some(reason);
        error
    }

    /// The sink is the other one after an abort: staged bytes are gone and nothing is published.
    pub open spec fn aborted_from(self, other: Self, reason: PackAbortReason) -> bool {
        &&& self.spec_limits() == other.spec_limits()
        &&& self.spec_state() == PackSinkState::Aborted(reason)
        &&& self.spec_published() is None
        &&& self.accepted() == Seq::<u8>::empty()
        &&& self.spec_report() == (PackStreamReport {
            aborted: Some(reason),
            ..other.spec_report()
        })
    }

    /// Why a nonempty chunk is refused by an open sink, leaving memory aside.
    pub open spec fn write_fault(self, length: nat) -> Option<PackStreamError> {
        if length > self.spec_limits().max_chunk_bytes {
            Some(PackStreamError::ChunkTooLarge)
        } else if self.accepted().len() + length > u64::MAX {
            Some(PackStreamError::ByteOverflow)
        } else if self.accepted().len() + length > self.spec_limits().max_total_bytes {
            Some(PackStreamError::TotalLimit)
        } else if self.spec_report().emitted_chunks == u64::MAX {
            Some(PackStreamError::ByteOverflow)
        } else {
            None
        }
    }
}

impl PackChunkSink for BoundedVecPackSink {
    closed spec fn spec_state(&self) -> PackSinkState {
        self.state
    }

    closed spec fn spec_report(&self) -> PackStreamReport {
        self.report
    }

    closed spec fn accepted(&self) -> Seq<u8> {
        match self.published {
            Some(bytes) => bytes@,
            None => self.staging@,
        }
    }

    open spec fn answers_write(
        &self,
        bytes: Seq<u8>,
        answer: Result<(), PackStreamError>,
    ) -> bool {
        if self.spec_state() !is Open {
            answer == Err::<(), PackStreamError>(
                PackStreamError::InvalidState {
                    operation: PackSinkOperation::Write,
                    state: self.spec_state(),
                },
            )
        } else if bytes.len() == 0 {
            answer is Ok
        } else {
            match self.write_fault(bytes.len()) {
                Some(error) => answer == Err::<(), PackStreamError>(error),
                None => answer is Ok || answer == Err::<(), PackStreamError>(
                    PackStreamError::Allocation,
                ),
            }
        }
    }

    fn write_chunk(&mut self, bytes: &[u8]) -> (result: Result<(), PackStreamError>)
        ensures
            final(self).spec_limits() == old(self).spec_limits(),
            old(self).spec_state() !is Open ==> *final(self) == *old(self) && result == Err::<
                (),
                PackStreamError,
            >(
                PackStreamError::InvalidState {
                    operation: PackSinkOperation::Write,
                    state: old(self).spec_state(),
                },
            ),
            old(self).spec_state() is Open && bytes@.len() == 0 ==> result is Ok && *final(self)
                == *old(self),
            old(self).spec_state() is Open && bytes@.len() > 0 ==> match old(self).write_fault(
                bytes@.len(),
            ) {
                Some(error) => result == Err::<(), PackStreamError>(error) && final(self).aborted_from(*old(self), PackAbortReason::LimitExceeded),
                None => {
                    ||| result == Err::<(), PackStreamError>(PackStreamError::Allocation) && final(self).aborted_from(*old(self), PackAbortReason::SinkFailure)
                    ||| result is Ok && final(self).spec_report() == (PackStreamReport {
                        emitted_bytes: (old(self).spec_report().emitted_bytes + bytes@.len()) as u64,
                        emitted_chunks: (old(self).spec_report().emitted_chunks + 1) as u64,
                        ..old(self).spec_report()
                    })
                },
            },
    {
        proof {
            use_type_invariant(&*self);
        }
        if let Err(error) = self.require_open(PackSinkOperation::Write) {
            return Err(error);
        }
        if bytes.len() == 0 {
            assert(self.accepted() =~= old(self).accepted() + bytes@);
            return Ok(());
        }
        if bytes.len() > self.limits.max_chunk_bytes {
            return Err(
                self.fail_write(PackStreamError::ChunkTooLarge, PackAbortReason::LimitExceeded),
            );
        }
        let next: u64 = match (self.staging.len() as u64).checked_add(bytes.len() as u64) {
            Some(next) => next,
            None => {
                return Err(
                    self.fail_write(PackStreamError::ByteOverflow, PackAbortReason::LimitExceeded),
                );
            },
        };
        if next > self.limits.max_total_bytes {
            return Err(
                self.fail_write(PackStreamError::TotalLimit, PackAbortReason::LimitExceeded),
            );
        }
        let next_chunks: u64 = match self.report.emitted_chunks.checked_add(1) {
            Some(chunks) => chunks,
            None => {
                return Err(
                    self.fail_write(PackStreamError::ByteOverflow, PackAbortReason::LimitExceeded),
                );
            },
        };
        let report = PackStreamReport {
            emitted_bytes: next,
            emitted_chunks: next_chunks,
            ..self.report
        };
        let mut staging: Vec<u8> = Vec::new();
        self.state = PackSinkState::Aborted(PackAbortReason::SinkFailure);
        std::mem::swap(&mut staging, &mut self.staging);
        if staging.try_reserve(bytes.len()).is_err() {
            self.report.aborted = Some(PackAbortReason::SinkFailure);
            return Err(PackStreamError::Allocation);
        }
        append_bytes(&mut staging, bytes);
        self.staging = staging;
        self.report = report;
        self.state = PackSinkState::Open;
        Ok(())
    }

    open spec fn answers_finish(&self, answer: Result<(), PackStreamError>) -> bool {
        if self.spec_state() is Open {
            answer is Ok
        } else {
            answer == Err::<(), PackStreamError>(
                PackStreamError::InvalidState {
                    operation: PackSinkOperation::Finish,
                    state: self.spec_state(),
                },
            )
        }
    }

    fn finish(&mut self) -> (result: Result<(), PackStreamError>)
        ensures
            final(self).spec_limits() == old(self).spec_limits(),
            old(self).spec_state() is Open ==> result is Ok && final(self).spec_published() == Some(
                old(self).accepted(),
            ) && final(self).spec_report() == (PackStreamReport {
                finished: true,
                ..old(self).spec_report()
            }),
            old(self).spec_state() !is Open ==> *final(self) == *old(self) && result == Err::<
                (),
                PackStreamError,
            >(
                PackStreamError::InvalidState {
                    operation: PackSinkOperation::Finish,
                    state: old(self).spec_state(),
                },
            ),
    {
        if let Err(error) = self.require_open(PackSinkOperation::Finish) {
            return Err(error);
        }
        proof {
            use_type_invariant(&*self);
        }
        let report = PackStreamReport { finished: true, ..self.report };
        let mut staging: Vec<u8> = Vec::new();
        self.state = PackSinkState::Aborted(PackAbortReason::SinkFailure);
        std::mem::swap(&mut staging, &mut self.staging);
        *self = BoundedVecPackSink {
            limits: self.limits,
            staging: Vec::new(),
            published: Some(staging),
            state: PackSinkState::Finished,
            report,
        };
        Ok(())
    }

    fn abort(&mut self, reason: PackAbortReason) -> (result: Result<(), PackStreamError>)
        ensures
            final(self).spec_limits() == old(self).spec_limits(),
            old(self).spec_state() is Open ==> final(self).aborted_from(*old(self), reason),
            old(self).spec_state() !is Open ==> *final(self) == *old(self) && result == Err::<
                (),
                PackStreamError,
            >(
                PackStreamError::InvalidState {
                    operation: PackSinkOperation::Abort,
                    state: old(self).spec_state(),
                },
            ),
    {
        if let Err(error) = self.require_open(PackSinkOperation::Abort) {
            return Err(error);
        }
        proof {
            use_type_invariant(&*self);
        }
        self.state = PackSinkState::Aborted(reason);
        self.staging = Vec::new();
        self.report.aborted = Some(reason);
        Ok(())
    }

    fn state(&self) -> (state: PackSinkState) {
        self.state
    }

    fn report(&self) -> (report: PackStreamReport) {
        proof {
            use_type_invariant(self);
        }
        self.report
    }
}

} // verus!
