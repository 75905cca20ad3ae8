//! Incremental PACK v2 writer.

use crate::bytes::{be_bytes, copy_range, push_be_u32};
use crate::clone_metrics::CloneLimits;
use crate::digest::{digest_of, StreamHasher};
use crate::object::{HashAlgo, ObjectKind, StoredObject};
use crate::pack_entry_reuse::{encode_header_u64, encode_ofs_delta_distance, PackEntryPlan};
use crate::pack_stream::{
    CancellationGate, CancellationProbe, CancellationReport, PackAbortReason, PackChunkSink,
    PackSinkState, PackStreamError, PackStreamLimits, PackStreamReport,
};
use crate::varint::{entry_header, ofs_distance};
use crate::zlib::{
    compress_new, compress_step, compress_total_in, compress_total_out, deflate_input,
    deflate_outcome, deflate_output, zeroed, zlib_decoded, ZlibStatus,
};
use vstd::prelude::*;

verus! {

/// Incremental writer lifecycle.
#[derive(Clone, Copy, Debug, PartialEq, Eq, Structural)]
pub enum PackWriterState {
    /// Validated, but no response bytes were sent.
    Ready,
    /// PACK header was sent and entries are expected.
    Streaming,
    /// Trailer and sink finish completed.
    Finished,
    /// A post-start error aborted the sink.
    Aborted,
}

/// Writer state or encoding failure.
#[derive(Clone, Copy, Debug, PartialEq, Eq, Structural)]
pub enum PackWriterError {
    /// Planned object count cannot be represented by PACK v2.
    ObjectCount,
    /// Clone or stream limits are invalid or inconsistent.
    InvalidLimits,
    /// Operation is not valid in the current writer state.
    InvalidState(PackWriterState),
    /// More entries were supplied than declared in the header.
    TooManyObjects,
    /// Finish was requested before every planned entry was written.
    ObjectCountMismatch,
    /// Byte accounting overflowed.
    ByteOverflow,
    /// Output would exceed validated limits.
    OutputLimit,
    /// A bounded buffer could not be reserved.
    Allocation,
    /// Zlib did not complete a valid stream.
    Compression,
    /// A recompression plan was executed without its decoded object.
    MissingFallback,
    /// Cancellation was observed at a checkpoint.
    Cancelled,
    /// Output sink rejected a write, finish or abort.
    Sink(PackStreamError),
}

/// Writer and sink counters.
#[derive(Clone, Copy, Debug, PartialEq, Eq, Structural)]
pub struct PackWriterReport {
    /// Current writer state.
    pub state: PackWriterState,
    /// Object count declared in the header.
    pub planned_objects: u32,
    /// Complete entries written.
    pub written_objects: u32,
    /// Decoded payload bytes consumed.
    pub decoded_bytes: u64,
    /// Zlib stream bytes emitted for entries.
    pub compressed_bytes: u64,
    /// Largest decoded object.
    pub peak_decoded_object_bytes: u64,
    /// Largest compressed chunk.
    pub peak_compressed_chunk_bytes: u64,
    /// Sink counters and terminal state.
    pub stream: PackStreamReport,
    /// Cancellation checkpoints.
    pub cancellation: CancellationReport,
}

/// Writer error with counters preserved after failure handling.
#[derive(Clone, Copy, Debug, PartialEq, Eq, Structural)]
pub struct PackWriterFailure {
    /// Error that triggered failure.
    pub error: PackWriterError,
    /// Report after best-effort abort.
    pub report: PackWriterReport,
}

/// Per-entry work returned after the complete entry reaches the sink.
#[derive(Clone, Copy, Debug, PartialEq, Eq, Structural)]
pub struct PackObjectWriteReport {
    /// Object kind.
    pub kind: ObjectKind,
    /// Decoded object bytes.
    pub decoded_bytes: u64,
    /// Zlib bytes, excluding the entry header.
    pub compressed_bytes: u64,
}

/// The twelve bytes that start a PACK v2 of `count` entries.
pub open spec fn pack_header(count: u32) -> Seq<u8> {
    seq![0x50u8, 0x41u8, 0x43u8, 0x4bu8] + be_bytes(2, 4) + be_bytes(count as int, 4)
}

/// `after` is `before` with one direct entry of `data` appended.
pub open spec fn object_appended(
    before: Seq<u8>,
    after: Seq<u8>,
    kind: ObjectKind,
    data: Seq<u8>,
) -> bool {
    let front = before + entry_header(kind.code(), data.len());
    &&& front.len() <= after.len()
    &&& after.take(front.len() as int) == front
    &&& zlib_decoded(after.skip(front.len() as int)) == Some(data)
}

/// The bytes that a reuse plan emits at `output_offset`.
pub open spec fn reused_entry_bytes(plan: PackEntryPlan, output_offset: int) -> Seq<u8> {
    match plan {
        PackEntryPlan::Direct(entry) => entry_header(
            entry.kind.code(),
            entry.declared_size as nat,
        ) + entry.compressed@,
        PackEntryPlan::RefDelta(entry) => entry_header(7, entry.declared_size as nat) + entry.base@
            + entry.compressed@,
        PackEntryPlan::OfsDelta(entry) => entry_header(6, entry.declared_size as nat)
            + ofs_distance((output_offset - entry.base_output_offset) as nat) + entry.compressed@,
        PackEntryPlan::RecompressFallback(_) => Seq::empty(),
    }
}

/// The decoded size and the retained bytes that a reuse plan accounts for.
pub open spec fn reused_sizes(plan: PackEntryPlan) -> (u64, nat) {
    match plan {
        PackEntryPlan::Direct(entry) => (entry.declared_size, entry.compressed@.len()),
        PackEntryPlan::RefDelta(entry) => (entry.result_size, entry.compressed@.len()),
        PackEntryPlan::OfsDelta(entry) => (entry.result_size, entry.compressed@.len()),
        PackEntryPlan::RecompressFallback(_) => (0, 0),
    }
}

/// The sink answers some write with this failure.
pub open spec fn sink_refused<S: PackChunkSink>(error: PackStreamError) -> bool {
    exists|sink: S, bytes: Seq<u8>| #[trigger] sink.answers_write(bytes, Err(error))
}

/// The sink answers some finish with this failure.
pub open spec fn sink_unfinished<S: PackChunkSink>(error: PackStreamError) -> bool {
    exists|sink: S| #[trigger] sink.answers_finish(Err(error))
}

/// A cancellation check stops the writer: the probe signalled, or no more checks can be counted.
pub open spec fn check_stops<P: CancellationProbe>(checks: u64, error: PackWriterError) -> bool {
    ||| error == PackWriterError::Cancelled && P::signals(true)
    ||| error == PackWriterError::ByteOverflow && checks == u64::MAX
}

/// Compressing some front of the data takes more bytes than there is room for.
pub open spec fn outgrows(data: Seq<u8>, room: int) -> bool {
    room < 0 || exists|encoder: flate2::Compress|
        deflate_input(encoder).is_prefix_of(data) && #[trigger] deflate_output(encoder).len() > room
}

/// The part of the data that a compressor is given next, in chunks of at most `chunk` bytes.
pub open spec fn next_input(encoder: flate2::Compress, data: Seq<u8>, chunk: int) -> Seq<u8> {
    let at = deflate_input(encoder).len() as int;
    data.subrange(
        at,
        if data.len() - at <= chunk {
            data.len() as int
        } else {
            at + chunk
        },
    )
}

/// A compressor that has taken some front of the data fails on what follows, ends before all of it
/// is taken, or makes no progress.
pub open spec fn compression_breaks(data: Seq<u8>, chunk: int) -> bool {
    exists|encoder: flate2::Compress| #[trigger]
        deflate_input(encoder).is_prefix_of(data) && call_breaks(encoder, data, chunk)
}

/// The next call of this compressor breaks the compression off.
pub open spec fn call_breaks(encoder: flate2::Compress, data: Seq<u8>, chunk: int) -> bool {
    let at = deflate_input(encoder).len();
    match deflate_outcome(
        encoder,
        next_input(encoder, data, chunk),
        chunk as nat,
        data.len() - at <= chunk,
    ) {
        None => true,
        Some((ZlibStatus::Ended, consumed, _)) => at + consumed != data.len(),
        Some((_, consumed, produced)) => consumed == 0 && produced == 0,
    }
}

/// Why the PACK header cannot be written.
pub open spec fn start_explained<S: PackChunkSink, P: CancellationProbe>(
    sink: S,
    planned: u32,
    room: int,
    checks: u64,
    error: PackWriterError,
) -> bool {
    ||| check_stops::<P>(checks, error)
    ||| error == PackWriterError::OutputLimit && room < 12
    ||| error is Sink && sink.answers_write(pack_header(planned), Err(error->Sink_0))
}

/// Why an object cannot be written.
pub open spec fn object_explained<S: PackChunkSink, P: CancellationProbe>(
    object: StoredObject,
    room: int,
    chunk: int,
    decoded_before: u64,
    checks: u64,
    error: PackWriterError,
) -> bool {
    let header = entry_header(object.kind.code(), object.data@.len());
    ||| check_stops::<P>(checks, error)
    ||| error == PackWriterError::OutputLimit && outgrows(object.data@, room - header.len())
    ||| error == PackWriterError::Compression && compression_breaks(object.data@, chunk)
    ||| error is Sink && sink_refused::<S>(error->Sink_0)
    ||| error == PackWriterError::ByteOverflow && decoded_before + object.data@.len() > u64::MAX
}

/// Why a retained entry cannot be written.
pub open spec fn reuse_explained<S: PackChunkSink, P: CancellationProbe>(
    plan: PackEntryPlan,
    offset: int,
    room: int,
    chunk: int,
    decoded_before: u64,
    checks: u64,
    error: PackWriterError,
) -> bool {
    ||| check_stops::<P>(checks, error)
    ||| error == PackWriterError::MissingFallback && plan is RecompressFallback
    ||| error == PackWriterError::ByteOverflow && (plan matches PackEntryPlan::OfsDelta(entry)
        && offset <= entry.base_output_offset)
    ||| error == PackWriterError::OutputLimit && reused_entry_bytes(plan, offset).len() > room
    ||| error == PackWriterError::OutputLimit && (plan matches PackEntryPlan::RefDelta(entry)
        && entry.base@.len() > chunk)
    ||| error is Sink && sink_refused::<S>(error->Sink_0)
    ||| error == PackWriterError::ByteOverflow && decoded_before + reused_sizes(plan).0 > u64::MAX
}

/// The writer's result for an outcome of the stream.
pub open spec fn writer_result(outcome: Result<(), PackStreamError>) -> Result<
    (),
    PackWriterError,
> {
    match outcome {
        Ok(_) => Ok(()),
        Err(error) => Err(writer_error(error)),
    }
}

/// A failed stream is over: a sink that did not fail itself was aborted for the reason of the
/// failure.
pub open spec fn stream_ended<S: PackChunkSink>(sink: S, error: PackWriterError) -> bool {
    &&& sink.spec_state() !is Open
    &&& error !is Sink ==> sink.spec_state() == PackSinkState::Aborted(spec_abort_reason(error))
}

/// The sink was asked to take the PACK header: it took it, or refused it with this failure.
pub open spec fn header_offered<S: PackChunkSink>(
    sink: S,
    planned: u32,
    error: PackWriterError,
) -> bool {
    ||| sink.answers_write(pack_header(planned), Ok(()))
    ||| error is Sink && sink.answers_write(pack_header(planned), Err(error->Sink_0))
}

/// Sequential PACK v2 writer over one sink.
pub struct IncrementalPackWriter<S, P> {
    sink: S,
    state: PackWriterState,
    planned_objects: u32,
    written_objects: u32,
    hash_algo: HashAlgo,
    hasher: Option<StreamHasher>,
    stream_limits: PackStreamLimits,
    max_output_bytes: u64,
    output_bytes: u64,
    decoded_bytes: u64,
    compressed_bytes: u64,
    peak_decoded_object_bytes: u64,
    peak_compressed_chunk_bytes: u64,
    cancellation: CancellationGate<P>,
}

/// The smaller of two numbers.
pub open spec fn smaller(left: u64, right: u64) -> u64 {
    if left <= right {
        left
    } else {
        right
    }
}

/// Limits under which a writer of `planned` entries may start.
pub open spec fn plan_fits(
    planned: usize,
    algo: HashAlgo,
    stream: PackStreamLimits,
    clone: CloneLimits,
) -> bool {
    &&& stream.valid()
    &&& clone.valid()
    &&& planned <= clone.max_selected_objects
    &&& stream.max_chunk_bytes <= clone.encoded_bytes_in_flight
    &&& stream.max_chunk_bytes >= 12
    &&& stream.max_chunk_bytes >= algo.spec_len()
    &&& smaller(stream.max_total_bytes, clone.max_output_bytes) >= 12 + algo.spec_len()
}

impl<S: PackChunkSink, P: CancellationProbe> IncrementalPackWriter<S, P> {
    /// The sink.
    pub closed spec fn spec_sink(self) -> S {
        self.sink
    }

    /// The writer state.
    pub closed spec fn spec_state(self) -> PackWriterState {
        self.state
    }

    /// The entry count declared in the header.
    pub closed spec fn spec_planned(self) -> u32 {
        self.planned_objects
    }

    /// The complete entries written.
    pub closed spec fn spec_written(self) -> u32 {
        self.written_objects
    }

    /// The hash algorithm of the trailer.
    pub closed spec fn spec_algo(self) -> HashAlgo {
        self.hash_algo
    }

    /// Bytes that may still be written in front of the trailer.
    pub closed spec fn spec_room(self) -> int {
        self.max_output_bytes - self.hash_algo.spec_len() - self.output_bytes
    }

    /// The largest chunk.
    pub closed spec fn spec_chunk(self) -> int {
        self.stream_limits.max_chunk_bytes as int
    }

    /// Every byte that the sink accepted.
    pub open spec fn output(self) -> Seq<u8> {
        self.spec_sink().accepted()
    }

    /// The counters.
    pub closed spec fn spec_report(self) -> PackWriterReport {
        PackWriterReport {
            state: self.state,
            planned_objects: self.planned_objects,
            written_objects: self.written_objects,
            decoded_bytes: self.decoded_bytes,
            compressed_bytes: self.compressed_bytes,
            peak_decoded_object_bytes: self.peak_decoded_object_bytes,
            peak_compressed_chunk_bytes: self.peak_compressed_chunk_bytes,
            stream: self.sink.spec_report(),
            cancellation: self.cancellation.spec_report(),
        }
    }

    /// What was written for one entry is counted.
    pub open spec fn counted(self, before: Self, report: PackObjectWriteReport) -> bool {
        &&& self.spec_report().decoded_bytes == before.spec_report().decoded_bytes
            + report.decoded_bytes
        &&& self.spec_report().compressed_bytes == before.spec_report().compressed_bytes
            + report.compressed_bytes
    }

    spec fn base(self) -> bool {
        &&& self.cancellation.wf()
        &&& self.stream_limits.valid()
        &&& self.stream_limits.max_chunk_bytes >= 12
        &&& self.stream_limits.max_chunk_bytes >= self.hash_algo.spec_len()
        &&& self.written_objects <= self.planned_objects
        &&& self.max_output_bytes <= 17_592_186_044_416
        &&& self.compressed_bytes <= self.output_bytes <= self.max_output_bytes
        &&& self.cancellation.spec_max_observation() == self.stream_limits.max_chunk_bytes
    }

    spec fn link(self) -> bool {
        &&& self.hasher is Some
        &&& self.hasher->0.spec_algo() == self.hash_algo
        &&& self.hasher->0.absorbed() == self.sink.accepted()
        &&& self.output_bytes == self.sink.accepted().len()
        &&& self.output_bytes == self.sink.spec_report().emitted_bytes
        &&& self.output_bytes + self.hash_algo.spec_len() <= self.max_output_bytes
    }

    /// The writer is consistent: while it is ready or streaming its sink is open, its digest covers
    /// every accepted byte, and the trailer still fits; afterwards its sink is not open.
    pub closed spec fn wf(self) -> bool {
        &&& self.base()
        &&& (self.state is Ready || self.state is Streaming) ==> self.sink.spec_state() is Open
            && self.link()
        &&& (self.state is Finished || self.state is Aborted) ==> self.sink.spec_state() !is Open
        &&& self.state is Ready ==> self.output_bytes == 0
        &&& self.state is Streaming ==> self.output_bytes >= 12
    }

    /// Only output, counters and digest may differ.
    spec fn same_plan(self, other: Self) -> bool {
        &&& self.state == other.state
        &&& self.planned_objects == other.planned_objects
        &&& self.written_objects == other.written_objects
        &&& self.hash_algo == other.hash_algo
        &&& self.stream_limits == other.stream_limits
        &&& self.max_output_bytes == other.max_output_bytes
    }

    /// Validate a complete plan before any bytes can be sent.
    ///
    /// The sink must be open and untouched.
    pub fn new(
        sink: S,
        planned_objects: usize,
        hash_algo: HashAlgo,
        stream_limits: PackStreamLimits,
        clone_limits: CloneLimits,
        cancellation: P,
    ) -> (result: Result<Self, PackWriterError>)
        ensures
            planned_objects > u32::MAX ==> result == Err::<Self, PackWriterError>(
                PackWriterError::ObjectCount,
            ),
            planned_objects <= u32::MAX ==> (result is Ok <==> {
                &&& plan_fits(planned_objects, hash_algo, stream_limits, clone_limits)
                &&& sink.spec_state() is Open
                &&& sink.spec_report().emitted_bytes == 0
                &&& sink.spec_report().emitted_chunks == 0
            }),
            planned_objects <= u32::MAX && result is Err ==> result->Err_0
                == PackWriterError::InvalidLimits,
            result is Ok ==> {
                let writer = result->Ok_0;
                &&& writer.wf()
                &&& writer.spec_sink() == sink
                &&& writer.spec_state() is Ready
                &&& writer.spec_planned() == planned_objects
                &&& writer.spec_written() == 0
                &&& writer.spec_algo() == hash_algo
                &&& writer.output() == Seq::<u8>::empty()
            },
    {
        if planned_objects > u32::MAX as usize {
            return Err(PackWriterError::ObjectCount);
        }
        if stream_limits.validate().is_err() {
            return Err(PackWriterError::InvalidLimits);
        }
        if clone_limits.validate().is_err() {
            return Err(PackWriterError::InvalidLimits);
        }
        let sink_report = sink.report();
        let max_output_bytes: u64 = if stream_limits.max_total_bytes
            <= clone_limits.max_output_bytes {
            stream_limits.max_total_bytes
        } else {
            clone_limits.max_output_bytes
        };
        let trailer: usize = hash_algo.len();
        if planned_objects > clone_limits.max_selected_objects
            || stream_limits.max_chunk_bytes as u64 > clone_limits.encoded_bytes_in_flight
            || stream_limits.max_chunk_bytes < 12 || stream_limits.max_chunk_bytes < trailer
            || max_output_bytes < 12 + trailer as u64 || sink.state() != PackSinkState::Open
            || sink_report.emitted_bytes != 0 || sink_report.emitted_chunks != 0 {
            return Err(PackWriterError::InvalidLimits);
        }
        let cancellation = match CancellationGate::new(cancellation, stream_limits) {
            Ok(gate) => gate,
            Err(_) => {
                return Err(PackWriterError::InvalidLimits);
            },
        };
        let writer = IncrementalPackWriter {
            sink,
            state: PackWriterState::Ready,
            planned_objects: planned_objects as u32,
            written_objects: 0,
            hash_algo,
            hasher: Some(StreamHasher::new(hash_algo)),
            stream_limits,
            max_output_bytes,
            output_bytes: 0,
            decoded_bytes: 0,
            compressed_bytes: 0,
            peak_decoded_object_bytes: 0,
            peak_compressed_chunk_bytes: 0,
            cancellation,
        };
        assert(writer.output() =~= Seq::<u8>::empty());
        Ok(writer)
    }

    /// Emit the PACK v2 signature, version and planned count.
    ///
    /// A failure before the header is accepted leaves an untouched sink open. Once bytes are
    /// accepted, a failure aborts the stream.
    pub fn start(&mut self) -> (result: Result<(), PackWriterFailure>)
        requires
            old(self).wf(),
        ensures
            final(self).wf(),
            final(self).spec_planned() == old(self).spec_planned(),
            final(self).spec_written() == old(self).spec_written(),
            final(self).spec_algo() == old(self).spec_algo(),
            old(self).spec_state() !is Ready ==> *final(self) == *old(self) && result is Err
                && result->Err_0.error == PackWriterError::InvalidState(old(self).spec_state()),
            result is Ok ==> {
                &&& final(self).spec_state() is Streaming
                &&& final(self).output() == pack_header(old(self).spec_planned())
            },
            result is Err ==> result->Err_0.report == final(self).spec_report(),
            result is Err && old(self).spec_state() is Ready ==> match final(self).spec_state() {
                PackWriterState::Ready => final(self).spec_sink() == old(self).spec_sink(),
                PackWriterState::Aborted => header_offered(
                    old(self).spec_sink(),
                    old(self).spec_planned(),
                    result->Err_0.error,
                ) && stream_ended(final(self).spec_sink(), result->Err_0.error),
                _ => false,
            },
            result is Err && old(self).spec_state() is Ready ==> start_explained::<S, P>(
                old(self).spec_sink(),
                old(self).spec_planned(),
                old(self).spec_room(),
                final(self).spec_report().cancellation.checks,
                result->Err_0.error,
            ),
    {
        if self.state != PackWriterState::Ready {
            return Err(self.failure(PackWriterError::InvalidState(self.state)));
        }
        match self.start_inner() {
            Ok(()) => {
                self.state = PackWriterState::Streaming;
                Ok(())
            },
            Err(error) => Err(self.abort_for(error)),
        }
    }

    fn start_inner(&mut self) -> (result: Result<(), PackWriterError>)
        requires
            old(self).wf(),
            old(self).state is Ready,
        ensures
            final(self).base(),
            final(self).same_plan(*old(self)),
            final(self).sink.spec_state() is Open ==> final(self).link(),
            result is Ok ==> {
                &&& final(self).sink.spec_state() is Open
                &&& final(self).sink.accepted() == pack_header(old(self).planned_objects)
                &&& final(self).output_bytes == 12
                &&& 12 <= old(self).spec_room()
                &&& P::signals(false)
                &&& old(self).sink.answers_write(pack_header(old(self).planned_objects), Ok(()))
            },
            result matches Err(error) ==> start_explained::<S, P>(
                old(self).sink,
                old(self).planned_objects,
                old(self).spec_room(),
                final(self).cancellation.spec_report().checks,
                error,
            ),
            result matches Err(error) ==> {
                &&& error is Sink <==> final(self).sink.spec_state() !is Open
                &&& final(self).sink == old(self).sink || header_offered(
                    old(self).sink,
                    old(self).planned_objects,
                    error,
                ) && (final(self).sink.spec_state() is Open ==> final(self).output_bytes == 12)
            },
    {
        if let Err(error) = self.cancellation.check_now() {
            return Err(map_stream_writer_error(error));
        }
        let mut header: Vec<u8> = vec![0x50u8, 0x41u8, 0x43u8, 0x4bu8];
        push_be_u32(&mut header, 2);
        push_be_u32(&mut header, self.planned_objects);
        proof {
            crate::bytes::lemma_be_bytes_len(2, 4);
            crate::bytes::lemma_be_bytes_len(self.planned_objects as int, 4);
            assert(header@ =~= pack_header(self.planned_objects));
        }
        match self.write_hashed_chunk(header.as_slice(), false) {
            Ok(done) => {
                assert(done == ());
                assert(self.sink.accepted() =~= header@);
                Ok(())
            },
            Err(error) => {
                reveal(IncrementalPackWriter::chunk_taken);
                Err(error)
            },
        }
    }

    /// Check cancellation immediately before a backend object read.
    pub fn checkpoint_before_read(&mut self) -> (result: Result<(), PackWriterFailure>)
        requires
            old(self).wf(),
        ensures
            final(self).wf(),
            final(self).spec_planned() == old(self).spec_planned(),
            final(self).spec_written() == old(self).spec_written(),
            final(self).spec_algo() == old(self).spec_algo(),
            old(self).spec_state() !is Streaming ==> *final(self) == *old(self) && result is Err
                && result->Err_0.error == PackWriterError::InvalidState(old(self).spec_state()),
            result is Ok ==> final(self).spec_state() is Streaming && final(self).output() == old(self).output() && P::signals(false),
            result is Err ==> result->Err_0.report == final(self).spec_report(),
            result is Err && old(self).spec_state() is Streaming ==> final(self).spec_state() is Aborted && check_stops::<P>(
                final(self).spec_report().cancellation.checks,
                result->Err_0.error,
            ) && stream_ended(final(self).spec_sink(), result->Err_0.error),
    {
        if self.state != PackWriterState::Streaming {
            return Err(self.failure(PackWriterError::InvalidState(self.state)));
        }
        match self.cancellation.check_now() {
            Ok(()) => Ok(()),
            Err(error) => Err(self.abort_for(map_stream_writer_error(error))),
        }
    }

    /// Write one complete direct object entry in bounded zlib chunks.
    pub fn write_object(&mut self, object: &StoredObject) -> (result: Result<
        PackObjectWriteReport,
        PackWriterFailure,
    >)
        requires
            old(self).wf(),
        ensures
            final(self).wf(),
            final(self).spec_planned() == old(self).spec_planned(),
            final(self).spec_algo() == old(self).spec_algo(),
            old(self).spec_state() !is Streaming ==> *final(self) == *old(self) && result is Err
                && result->Err_0.error == PackWriterError::InvalidState(old(self).spec_state()),
            old(self).spec_state() is Streaming && old(self).spec_written() >= old(self).spec_planned() ==> result is Err && result->Err_0.error
                == PackWriterError::TooManyObjects,
            match result {
                Ok(report) => {
                    &&& final(self).spec_state() is Streaming
                    &&& final(self).spec_written() == old(self).spec_written() + 1
                    &&& object_appended(
                        old(self).output(),
                        final(self).output(),
                        object.kind,
                        object.data@,
                    )
                    &&& report.kind == object.kind
                    &&& report.decoded_bytes == object.data@.len()
                    &&& report.compressed_bytes == final(self).output().len() - old(self).output().len() - entry_header(object.kind.code(), object.data@.len()).len()
                    &&& final(self).counted(*old(self), report)
                },
                Err(failure) => {
                    &&& failure.report == final(self).spec_report()
                    &&& final(self).spec_written() == old(self).spec_written()
                    &&& old(self).spec_state() is Streaming ==> final(self).spec_state() is Aborted
                        && stream_ended(final(self).spec_sink(), failure.error)
                    &&& old(self).spec_state() is Streaming && old(self).spec_written() < old(self).spec_planned() ==> object_explained::<S, P>(
                        *object,
                        old(self).spec_room(),
                        old(self).spec_chunk(),
                        old(self).spec_report().decoded_bytes,
                        final(self).spec_report().cancellation.checks,
                        failure.error,
                    )
                },
            },
    {
        if self.state != PackWriterState::Streaming {
            return Err(self.failure(PackWriterError::InvalidState(self.state)));
        }
        if self.written_objects >= self.planned_objects {
            return Err(self.abort_for(PackWriterError::TooManyObjects));
        }
        match self.write_object_inner(object) {
            Ok(report) => {
                self.written_objects = self.written_objects + 1;
                Ok(report)
            },
            Err(error) => Err(self.abort_for(error)),
        }
    }

    /// Emit the body checksum and finish the sink exactly once.
    ///
    /// Success means that the sink holds the body followed by its digest.
    pub fn finish(&mut self) -> (result: Result<PackWriterReport, PackWriterFailure>)
        requires
            old(self).wf(),
        ensures
            final(self).wf(),
            final(self).spec_planned() == old(self).spec_planned(),
            final(self).spec_written() == old(self).spec_written(),
            final(self).spec_algo() == old(self).spec_algo(),
            old(self).spec_state() !is Streaming ==> *final(self) == *old(self) && result is Err
                && result->Err_0.error == PackWriterError::InvalidState(old(self).spec_state()),
            old(self).spec_state() is Streaming && old(self).spec_written() != old(self).spec_planned() ==> result is Err && result->Err_0.error
                == PackWriterError::ObjectCountMismatch,
            match result {
                Ok(report) => {
                    &&& report == final(self).spec_report()
                    &&& final(self).spec_state() is Finished
                    &&& final(self).spec_sink().spec_state() is Finished
                    &&& old(self).spec_written() == old(self).spec_planned()
                    &&& final(self).output() == old(self).output() + digest_of(
                        old(self).spec_algo(),
                        old(self).output(),
                    )
                },
                Err(failure) => {
                    &&& failure.report == final(self).spec_report()
                    &&& old(self).spec_state() is Streaming ==> final(self).spec_state() is Aborted
                        && stream_ended(final(self).spec_sink(), failure.error)
                    &&& old(self).spec_state() is Streaming && old(self).spec_written() == old(self).spec_planned() ==> {
                        ||| check_stops::<P>(
                            final(self).spec_report().cancellation.checks,
                            failure.error,
                        )
                        ||| failure.error is Sink && (sink_refused::<S>(failure.error->Sink_0)
                            || sink_unfinished::<S>(failure.error->Sink_0))
                    }
                },
            },
    {
        if self.state != PackWriterState::Streaming {
            return Err(self.failure(PackWriterError::InvalidState(self.state)));
        }
        if self.written_objects != self.planned_objects {
            return Err(self.abort_for(PackWriterError::ObjectCountMismatch));
        }
        if let Err(error) = self.cancellation.check_now() {
            return Err(self.abort_for(map_stream_writer_error(error)));
        }
        let hasher = match self.hasher.take() {
            Some(hasher) => hasher,
            None => {
                return Err(self.abort_for(PackWriterError::InvalidState(self.state)));
            },
        };
        let trailer: Vec<u8> = hasher.finish().to_bytes();
        if let Err(error) = self.write_unhashed(trailer.as_slice()) {
            return Err(self.abort_for(error));
        }
        if let Err(error) = self.sink.finish() {
            return Err(self.abort_for(PackWriterError::Sink(error)));
        }
        self.state = PackWriterState::Finished;
        Ok(self.report())
    }

    /// Abort a started writer for an external failure.
    ///
    /// A ready writer whose sink has accepted no bytes stays ready and open.
    pub fn abort(&mut self, reason: PackAbortReason) -> (report: PackWriterReport)
        requires
            old(self).wf(),
        ensures
            final(self).wf(),
            report == final(self).spec_report(),
            final(self).spec_written() == old(self).spec_written(),
            final(self).spec_planned() == old(self).spec_planned(),
            final(self).spec_algo() == old(self).spec_algo(),
            old(self).spec_state() is Streaming ==> final(self).spec_state() is Aborted && final(self).spec_sink().spec_state() == PackSinkState::Aborted(reason),
            old(self).spec_state() !is Streaming ==> *final(self) == *old(self),
    {
        if self.state == PackWriterState::Ready || self.state == PackWriterState::Streaming {
            let output_started = self.sink.report().emitted_bytes > 0;
            if output_started && self.sink.state() == PackSinkState::Open {
                let _aborted = self.sink.abort(reason);
            }
            if output_started || self.sink.state() != PackSinkState::Open {
                self.state = PackWriterState::Aborted;
            }
        }
        self.report()
    }

    /// Return writer, sink and cancellation counters.
    pub fn report(&self) -> (report: PackWriterReport)
        ensures
            report == self.spec_report(),
    {
        PackWriterReport {
            state: self.state,
            planned_objects: self.planned_objects,
            written_objects: self.written_objects,
            decoded_bytes: self.decoded_bytes,
            compressed_bytes: self.compressed_bytes,
            peak_decoded_object_bytes: self.peak_decoded_object_bytes,
            peak_compressed_chunk_bytes: self.peak_compressed_chunk_bytes,
            stream: self.sink.report(),
            cancellation: self.cancellation.report(),
        }
    }

    /// Return the offset where the next entry header will be written.
    pub fn next_entry_offset(&self) -> (offset: u64)
        requires
            self.wf(),
        ensures
            self.spec_state() is Ready || self.spec_state() is Streaming ==> offset
                == self.output().len(),
    {
        self.output_bytes
    }

    /// Return the sink.
    pub fn into_sink(self) -> (sink: S)
        ensures
            sink == self.spec_sink(),
    {
        self.sink
    }

    /// Execute one reuse plan, or compress `fallback` where the plan says so.
    ///
    /// An OFS distance is recomputed from the current output offset.
    pub fn write_entry_plan(
        &mut self,
        plan: &PackEntryPlan,
        fallback: Option<&StoredObject>,
    ) -> (result: Result<PackObjectWriteReport, PackWriterFailure>)
        requires
            old(self).wf(),
        ensures
            final(self).wf(),
            final(self).spec_planned() == old(self).spec_planned(),
            final(self).spec_algo() == old(self).spec_algo(),
            *plan is RecompressFallback && fallback is None ==> {
                &&& result is Err
                &&& result->Err_0.error == PackWriterError::MissingFallback
                &&& final(self).spec_state() == if old(self).spec_state() is Ready {
                    PackWriterState::Ready
                } else {
                    PackWriterState::Aborted
                }
                &&& old(self).spec_state() !is Streaming ==> final(self).spec_sink()
                    == old(self).spec_sink()
            },
            !(*plan is RecompressFallback && fallback is None) && old(self).spec_state() !is Streaming ==> *final(self) == *old(self) && result is Err
                && result->Err_0.error == PackWriterError::InvalidState(old(self).spec_state()),
            !(*plan is RecompressFallback && fallback is None) && old(self).spec_state() is Streaming && old(self).spec_written() >= old(self).spec_planned()
                ==> result is Err && result->Err_0.error == PackWriterError::TooManyObjects,
            match result {
                Ok(report) => {
                    &&& final(self).spec_state() is Streaming
                    &&& final(self).spec_written() == old(self).spec_written() + 1
                    &&& *plan is RecompressFallback ==> fallback is Some && object_appended(
                        old(self).output(),
                        final(self).output(),
                        fallback->0.kind,
                        fallback->0.data@,
                    ) && report.kind == fallback->0.kind && report.decoded_bytes
                        == fallback->0.data@.len()
                    &&& final(self).counted(*old(self), report)
                    &&& !(*plan is RecompressFallback) ==> {
                        &&& final(self).output() == old(self).output() + reused_entry_bytes(
                            *plan,
                            old(self).output().len() as int,
                        )
                        &&& Some(report.kind) == plan.spec_reused_kind()
                        &&& report.decoded_bytes == reused_sizes(*plan).0
                        &&& report.compressed_bytes == reused_sizes(*plan).1
                    }
                },
                Err(failure) => {
                    &&& failure.report == final(self).spec_report()
                    &&& final(self).spec_written() == old(self).spec_written()
                    &&& old(self).spec_state() is Streaming ==> final(self).spec_state() is Aborted
                        && stream_ended(final(self).spec_sink(), failure.error)
                    &&& old(self).spec_state() is Streaming && old(self).spec_written() < old(self).spec_planned() && !(*plan is RecompressFallback && fallback is None)
                        ==> if *plan is RecompressFallback {
                        object_explained::<S, P>(
                            *fallback->0,
                            old(self).spec_room(),
                            old(self).spec_chunk(),
                            old(self).spec_report().decoded_bytes,
                            final(self).spec_report().cancellation.checks,
                            failure.error,
                        )
                    } else {
                        reuse_explained::<S, P>(
                            *plan,
                            old(self).output().len() as int,
                            old(self).spec_room(),
                            old(self).spec_chunk(),
                            old(self).spec_report().decoded_bytes,
                            final(self).spec_report().cancellation.checks,
                            failure.error,
                        )
                    }
                },
            },
    {
        if let PackEntryPlan::RecompressFallback(_) = plan {
            match fallback {
                Some(object) => {
                    return self.write_object(object);
                },
                None => {
                    return Err(self.abort_for(PackWriterError::MissingFallback));
                },
            }
        }
        if self.state != PackWriterState::Streaming {
            return Err(self.failure(PackWriterError::InvalidState(self.state)));
        }
        if self.written_objects >= self.planned_objects {
            return Err(self.abort_for(PackWriterError::TooManyObjects));
        }
        match self.write_reused_entry_inner(plan) {
            Ok(report) => {
                self.written_objects = self.written_objects + 1;
                Ok(report)
            },
            Err(error) => Err(self.abort_for(error)),
        }
    }

    #[verifier::rlimit(60)]
    fn write_reused_entry_inner(&mut self, plan: &PackEntryPlan) -> (result: Result<
        PackObjectWriteReport,
        PackWriterError,
    >)
        requires
            old(self).wf(),
            old(self).state is Streaming,
        ensures
            final(self).base(),
            final(self).same_plan(*old(self)),
            final(self).sink.spec_report().emitted_bytes >= 12,
            result is Ok ==> {
                &&& final(self).wf()
                &&& !(*plan is RecompressFallback)
                &&& final(self).sink.accepted() == old(self).sink.accepted() + reused_entry_bytes(
                    *plan,
                    old(self).sink.accepted().len() as int,
                )
                &&& Some(result->Ok_0.kind) == plan.spec_reused_kind()
                &&& result->Ok_0.decoded_bytes == reused_sizes(*plan).0
                &&& result->Ok_0.compressed_bytes == reused_sizes(*plan).1
                &&& reused_entry_bytes(*plan, old(self).sink.accepted().len() as int).len()
                    <= old(self).spec_room()
                &&& final(self).decoded_bytes == old(self).decoded_bytes + reused_sizes(*plan).0
                &&& final(self).compressed_bytes == old(self).compressed_bytes + reused_sizes(*plan).1
                &&& P::signals(false)
            },
            result matches Err(error) ==> reuse_explained::<S, P>(
                *plan,
                old(self).sink.accepted().len() as int,
                old(self).spec_room(),
                old(self).spec_chunk(),
                old(self).decoded_bytes,
                final(self).cancellation.spec_report().checks,
                error,
            ),
            result matches Err(error) ==> (error is Sink <==> final(self).sink.spec_state() !is Open),
    {
        if let Err(error) = self.cancellation.check_now() {
            return Err(map_stream_writer_error(error));
        }
        let (kind, decoded_size, declared_size, type_code, base_bytes, compressed): (
            ObjectKind,
            u64,
            u64,
            u8,
            Vec<u8>,
            &Vec<u8>,
        ) = match plan {
            PackEntryPlan::Direct(entry) => {
                let none: Vec<u8> = Vec::new();
                (
                    entry.kind,
                    entry.declared_size,
                    entry.declared_size,
                    entry.kind.pack_type_code(),
                    none,
                    &entry.compressed,
                )
            },
            PackEntryPlan::RefDelta(entry) => (
                entry.result_kind,
                entry.result_size,
                entry.declared_size,
                7,
                entry.base.to_bytes(),
                &entry.compressed,
            ),
            PackEntryPlan::OfsDelta(entry) => {
                if self.output_bytes <= entry.base_output_offset {
                    return Err(PackWriterError::ByteOverflow);
                }
                let distance: u64 = self.output_bytes - entry.base_output_offset;
                let mut distance_bytes: Vec<u8> = Vec::new();
                encode_ofs_delta_distance(&mut distance_bytes, distance)?;
                assert(distance_bytes@ =~= ofs_distance(distance as nat));
                (
                    entry.result_kind,
                    entry.result_size,
                    entry.declared_size,
                    6,
                    distance_bytes,
                    &entry.compressed,
                )
            },
            PackEntryPlan::RecompressFallback(_) => {
                return Err(PackWriterError::MissingFallback);
            },
        };
        let ghost start = self.sink.accepted();
        let mut header: Vec<u8> = Vec::new();
        encode_header_u64(&mut header, type_code, declared_size)?;
        assert(header@ =~= entry_header(type_code, declared_size as nat));
        let ghost entry_bytes = reused_entry_bytes(*plan, start.len() as int);
        proof {
            crate::varint::lemma_entry_header_len(type_code, declared_size as nat);
            assert(entry_bytes =~= header@ + base_bytes@ + compressed@);
            if let PackEntryPlan::OfsDelta(entry) = plan {
                crate::varint::lemma_ofs_distance_len(
                    (start.len() - entry.base_output_offset) as nat,
                );
            }
        }
        self.write_hashed_chunk(header.as_slice(), false)?;
        if base_bytes.len() > 0 {
            self.write_hashed_chunk(base_bytes.as_slice(), false)?;
        }
        let ghost front = start + header@ + base_bytes@;
        assert(self.sink.accepted() =~= front);
        let mut at: usize = 0;
        assert(front + compressed@.take(0) =~= front);
        while at < compressed.len()
            invariant
                at <= compressed@.len(),
                self.wf(),
                self.state is Streaming,
                self.same_plan(*old(self)),
                self.sink.accepted() == front + compressed@.take(at as int),
                self.sink.spec_report().emitted_bytes >= 12,
                start == old(self).sink.accepted(),
                entry_bytes == reused_entry_bytes(*plan, start.len() as int),
                entry_bytes.len() == front.len() - start.len() + compressed@.len(),
                self.spec_room() == old(self).spec_room() - (front.len() - start.len()) - at,
                self.decoded_bytes == old(self).decoded_bytes,
                self.compressed_bytes == old(self).compressed_bytes + at,
                P::signals(false),
            decreases compressed.len() - at,
        {
            if let Err(error) = self.cancellation.check_now() {
                return Err(map_stream_writer_error(error));
            }
            let end: usize = if compressed.len() - at > self.stream_limits.max_chunk_bytes {
                at + self.stream_limits.max_chunk_bytes
            } else {
                compressed.len()
            };
            let chunk: Vec<u8> = copy_range(compressed.as_slice(), at, end);
            self.write_hashed_chunk(chunk.as_slice(), true)?;
            assert(front + compressed@.take(at as int) + chunk@ =~= front + compressed@.take(
                end as int,
            ));
            at = end;
        }
        assert(compressed@.take(at as int) =~= compressed@);
        assert(self.sink.accepted() =~= start + reused_entry_bytes(*plan, start.len() as int));
        match self.decoded_bytes.checked_add(decoded_size) {
            Some(total) => {
                self.decoded_bytes = total;
            },
            None => {
                return Err(PackWriterError::ByteOverflow);
            },
        }
        Ok(
            PackObjectWriteReport {
                kind,
                decoded_bytes: decoded_size,
                compressed_bytes: compressed.len() as u64,
            },
        )
    }

    fn write_object_inner(&mut self, object: &StoredObject) -> (result: Result<
        PackObjectWriteReport,
        PackWriterError,
    >)
        requires
            old(self).wf(),
            old(self).state is Streaming,
        ensures
            final(self).base(),
            final(self).same_plan(*old(self)),
            final(self).sink.spec_report().emitted_bytes >= 12,
            result is Ok ==> {
                &&& final(self).wf()
                &&& object_appended(
                    old(self).sink.accepted(),
                    final(self).sink.accepted(),
                    object.kind,
                    object.data@,
                )
                &&& result->Ok_0.kind == object.kind
                &&& result->Ok_0.decoded_bytes == object.data@.len()
                &&& result->Ok_0.compressed_bytes == final(self).sink.accepted().len() - old(self).sink.accepted().len() - entry_header(
                    object.kind.code(),
                    object.data@.len(),
                ).len()
                &&& final(self).decoded_bytes == old(self).decoded_bytes + object.data@.len()
                &&& final(self).compressed_bytes == old(self).compressed_bytes
                    + result->Ok_0.compressed_bytes
                &&& P::signals(false)
            },
            result matches Err(error) ==> object_explained::<S, P>(
                *object,
                old(self).spec_room(),
                old(self).spec_chunk(),
                old(self).decoded_bytes,
                final(self).cancellation.spec_report().checks,
                error,
            ),
            result matches Err(error) ==> (error is Sink <==> final(self).sink.spec_state() !is Open),
    {
        let decoded_bytes: u64 = object.data.len() as u64;
        proof {
            crate::varint::lemma_entry_header_len(object.kind.code(), decoded_bytes as nat);
        }
        if self.peak_decoded_object_bytes < decoded_bytes {
            self.peak_decoded_object_bytes = decoded_bytes;
        }
        let ghost start = self.sink.accepted();
        let mut header: Vec<u8> = Vec::new();
        encode_header_u64(&mut header, object.kind.pack_type_code(), decoded_bytes)?;
        assert(header@ =~= entry_header(object.kind.code(), object.data@.len()));
        self.write_hashed_chunk(header.as_slice(), false)?;
        let ghost front = start + header@;
        let mut output: Vec<u8> = zeroed(self.stream_limits.max_chunk_bytes);
        let mut compressor = compress_new();
        let mut input_offset: usize = 0;
        let mut emitted: u64 = 0;
        assert(object.data@.take(0) =~= Seq::<u8>::empty());
        assert(front + Seq::<u8>::empty() =~= front);
        loop
            invariant
                self.wf(),
                self.state is Streaming,
                self.same_plan(*old(self)),
                self.sink.spec_report().emitted_bytes >= 12,
                output@.len() == self.stream_limits.max_chunk_bytes,
                input_offset <= object.data@.len(),
                deflate_input(compressor) == object.data@.take(input_offset as int),
                deflate_output(compressor).len() == emitted,
                self.sink.accepted() == front + deflate_output(compressor),
                front == start + entry_header(object.kind.code(), object.data@.len()),
                start == old(self).sink.accepted(),
                decoded_bytes == object.data@.len(),
                self.spec_room() == old(self).spec_room() - (front.len() - start.len()) - emitted,
                self.decoded_bytes == old(self).decoded_bytes,
                self.compressed_bytes == old(self).compressed_bytes + emitted,
            decreases
                    (object.data@.len() - input_offset) + (self.max_output_bytes
                        - self.output_bytes),
        {
            if let Err(error) = self.cancellation.check_now() {
                return Err(map_stream_writer_error(error));
            }
            let remaining: usize = object.data.len() - input_offset;
            let last: bool = remaining <= self.stream_limits.max_chunk_bytes;
            let input_end: usize = if last {
                object.data.len()
            } else {
                input_offset + self.stream_limits.max_chunk_bytes
            };
            let input: Vec<u8> = copy_range(object.data.as_slice(), input_offset, input_end);
            let ghost before = compressor;
            let ghost before_in = deflate_input(compressor);
            let ghost before_out = deflate_output(compressor);
            proof {
                assert(input@ =~= next_input(before, object.data@, self.spec_chunk()));
                assert(before_in.is_prefix_of(object.data@));
            }
            let status = match compress_step(
                &mut compressor,
                input.as_slice(),
                &mut output,
                last,
            ) {
                Ok(status) => status,
                Err(_) => {
                    assert(call_breaks(before, object.data@, self.spec_chunk()));
                    return Err(PackWriterError::Compression);
                },
            };
            let all_in: u64 = compress_total_in(&compressor);
            let all_out: u64 = compress_total_out(&compressor);
            let consumed: u64 = all_in - input_offset as u64;
            let produced: u64 = all_out - emitted;
            proof {
                assert(before_in + input@.take(consumed as int) =~= object.data@.take(
                    all_in as int,
                ));
            }
            input_offset = all_in as usize;
            if produced > 0 {
                let chunk: Vec<u8> = copy_range(output.as_slice(), 0, produced as usize);
                proof {
                    assert(deflate_input(compressor).is_prefix_of(object.data@));
                    assert(deflate_output(compressor).len() == emitted + produced);
                }
                self.write_hashed_chunk(chunk.as_slice(), true)?;
                proof {
                    assert(chunk@ =~= output@.take(produced as int));
                    assert(front + before_out + chunk@ =~= front + deflate_output(compressor));
                }
            } else {
                assert(before_out + output@.take(0) =~= before_out);
            }
            emitted = all_out;
            if status == ZlibStatus::Ended {
                if input_offset != object.data.len() {
                    assert(call_breaks(before, object.data@, self.spec_chunk()));
                    return Err(PackWriterError::Compression);
                }
                proof {
                    assert(object.data@.take(input_offset as int) =~= object.data@);
                    let after = self.sink.accepted();
                    assert(after.take(front.len() as int) =~= front);
                    assert(after.skip(front.len() as int) =~= deflate_output(compressor));
                }
                match self.decoded_bytes.checked_add(decoded_bytes) {
                    Some(total) => {
                        self.decoded_bytes = total;
                    },
                    None => {
                        return Err(PackWriterError::ByteOverflow);
                    },
                }
                return Ok(
                    PackObjectWriteReport {
                        kind: object.kind,
                        decoded_bytes,
                        compressed_bytes: emitted,
                    },
                );
            }
            if consumed == 0 && produced == 0 {
                assert(call_breaks(before, object.data@, self.spec_chunk()));
                return Err(PackWriterError::Compression);
            }
        }
    }

    /// The sink refused the bytes, and nothing but the sink changed.
    spec fn write_refused(
        self,
        before: Self,
        bytes: Seq<u8>,
        result: Result<(), PackWriterError>,
    ) -> bool {
        &&& result is Err
        &&& result->Err_0 is Sink
        &&& before.sink.answers_write(bytes, Err(result->Err_0->Sink_0))
        &&& self == (Self { sink: self.sink, ..before })
    }

    /// The sink took the bytes, they were counted, and cancellation was checked where it was due.
    #[verifier::opaque]
    spec fn chunk_taken(
        self,
        before: Self,
        bytes: Seq<u8>,
        compressed: bool,
        result: Result<(), PackWriterError>,
    ) -> bool {
        let length = bytes.len() as u64;
        &&& before.sink.answers_write(bytes, Ok(()))
        &&& self == (Self {
            sink: self.sink,
            hasher: self.hasher,
            output_bytes: (before.output_bytes + length) as u64,
            compressed_bytes: if compressed {
                (before.compressed_bytes + length) as u64
            } else {
                before.compressed_bytes
            },
            peak_compressed_chunk_bytes: if compressed && before.peak_compressed_chunk_bytes
                < length {
                length
            } else {
                before.peak_compressed_chunk_bytes
            },
            cancellation: self.cancellation,
            ..before
        })
        &&& exists|outcome: Result<(), PackStreamError>| #[trigger]
            CancellationGate::<P>::observed(
                before.cancellation,
                self.cancellation,
                length,
                outcome,
            ) && result == writer_result(outcome)
    }

    fn write_hashed_chunk(&mut self, bytes: &[u8], compressed: bool) -> (result: Result<
        (),
        PackWriterError,
    >)
        requires
            old(self).wf(),
            old(self).state is Ready || old(self).state is Streaming,
        ensures
            final(self).base(),
            final(self).same_plan(*old(self)),
            final(self).sink.spec_report().emitted_bytes >= old(self).sink.spec_report().emitted_bytes,
            final(self).sink.spec_state() is Open ==> final(self).link(),
            result is Ok ==> {
                &&& final(self).sink.spec_state() is Open
                &&& final(self).sink.accepted() == old(self).sink.accepted() + bytes@
                &&& final(self).output_bytes == old(self).output_bytes + bytes@.len()
                &&& old(self).state is Streaming ==> final(self).wf()
            },
            bytes@.len() > old(self).spec_room() ==> result == Err::<(), PackWriterError>(
                PackWriterError::OutputLimit,
            ) && *final(self) == *old(self),
            bytes@.len() <= old(self).spec_room() ==> {
                ||| final(self).write_refused(*old(self), bytes@, result)
                ||| final(self).chunk_taken(*old(self), bytes@, compressed, result)
            },
            final(self).decoded_bytes == old(self).decoded_bytes,
            result is Ok ==> {
                &&& bytes@.len() <= old(self).spec_room()
                &&& old(self).sink.answers_write(bytes@, Ok(()))
                &&& final(self).compressed_bytes == old(self).compressed_bytes + if compressed {
                    bytes@.len() as int
                } else {
                    0
                }
            },
            result matches Err(error) ==> {
                ||| check_stops::<P>(final(self).cancellation.spec_report().checks, error)
                ||| error == PackWriterError::OutputLimit && bytes@.len() > old(self).spec_room()
                ||| error == PackWriterError::OutputLimit && bytes@.len() > old(self).spec_chunk()
                ||| error is Sink && old(self).sink.answers_write(
                    bytes@,
                    Err(error->Sink_0),
                ) && sink_refused::<S>(error->Sink_0)
            },
            result matches Err(error) ==> (error is Sink <==> final(self).sink.spec_state() !is Open),
    {
        self.ensure_output(bytes.len(), true)?;
        let byte_count: u64 = bytes.len() as u64;
        let output_bytes: u64 = self.output_bytes + byte_count;
        let compressed_bytes: u64 = if compressed {
            match self.compressed_bytes.checked_add(byte_count) {
                Some(total) => total,
                None => {
                    return Err(PackWriterError::ByteOverflow);
                },
            }
        } else {
            self.compressed_bytes
        };
        let mut hasher = match self.hasher.take() {
            Some(hasher) => hasher,
            None => {
                return Err(PackWriterError::InvalidState(self.state));
            },
        };
        match self.sink.write_chunk(bytes) {
            Ok(done) => {
                assert(done == ());
            },
            Err(error) => {
                self.hasher = Some(hasher);
                assert(old(self).sink.answers_write(bytes@, Err(error)));
                return Err(PackWriterError::Sink(error));
            },
        }
        hasher.update(bytes);
        self.hasher = Some(hasher);
        self.output_bytes = output_bytes;
        if compressed {
            self.compressed_bytes = compressed_bytes;
            if self.peak_compressed_chunk_bytes < byte_count {
                self.peak_compressed_chunk_bytes = byte_count;
            }
        }
        let outcome = self.cancellation.observe_bytes(byte_count);
        assert(CancellationGate::<P>::observed(
            old(self).cancellation,
            self.cancellation,
            byte_count,
            outcome,
        ));
        reveal(IncrementalPackWriter::chunk_taken);
        match outcome {
            Ok(()) => Ok(()),
            Err(error) => Err(map_stream_writer_error(error)),
        }
    }

    fn write_unhashed(&mut self, bytes: &[u8]) -> (result: Result<(), PackWriterError>)
        requires
            old(self).base(),
        ensures
            final(self).base(),
            final(self).same_plan(*old(self)),
            final(self).sink.spec_report().emitted_bytes >= old(self).sink.spec_report().emitted_bytes,
            result is Ok ==> {
                &&& final(self).sink.spec_state() is Open
                &&& final(self).sink.accepted() == old(self).sink.accepted() + bytes@
                &&& old(self).sink.answers_write(bytes@, Ok(()))
                &&& *final(self) == (Self {
                    sink: final(self).sink,
                    output_bytes: (old(self).output_bytes + bytes@.len()) as u64,
                    ..*old(self)
                })
            },
            old(self).output_bytes + bytes@.len() > old(self).max_output_bytes ==> result == Err::<
                (),
                PackWriterError,
            >(PackWriterError::OutputLimit) && *final(self) == *old(self),
            old(self).output_bytes + bytes@.len() <= old(self).max_output_bytes && result is Err
                ==> final(self).write_refused(*old(self), bytes@, result),
    {
        self.ensure_output(bytes.len(), false)?;
        let byte_count: u64 = bytes.len() as u64;
        let output_bytes: u64 = self.output_bytes + byte_count;
        match self.sink.write_chunk(bytes) {
            Ok(done) => {
                assert(done == ());
            },
            Err(error) => {
                return Err(PackWriterError::Sink(error));
            },
        }
        self.output_bytes = output_bytes;
        Ok(())
    }

    fn ensure_output(&self, bytes: usize, reserve_trailer: bool) -> (result: Result<
        (),
        PackWriterError,
    >)
        ensures
            result == if self.output_bytes + bytes + (if reserve_trailer {
                self.hash_algo.spec_len()
            } else {
                0
            }) <= self.max_output_bytes {
                Ok::<(), PackWriterError>(())
            } else {
                Err(PackWriterError::OutputLimit)
            },
    {
        let trailer: u64 = if reserve_trailer {
            self.hash_algo.len() as u64
        } else {
            0
        };
        match self.output_bytes.checked_add(bytes as u64) {
            Some(total) => match total.checked_add(trailer) {
                Some(all) => {
                    if all <= self.max_output_bytes {
                        Ok(())
                    } else {
                        Err(PackWriterError::OutputLimit)
                    }
                },
                None => Err(PackWriterError::OutputLimit),
            },
            None => Err(PackWriterError::OutputLimit),
        }
    }

    fn abort_for(&mut self, error: PackWriterError) -> (failure: PackWriterFailure)
        requires
            old(self).base(),
            old(self).state is Streaming ==> old(self).sink.spec_report().emitted_bytes > 0,
            old(self).state is Finished || old(self).state is Aborted
                ==> old(self).sink.spec_state() !is Open,
            old(self).state is Ready && old(self).sink.spec_state() is Open ==> old(self).link(),
        ensures
            final(self).wf(),
            failure.error == error,
            failure.report == final(self).spec_report(),
            final(self).planned_objects == old(self).planned_objects,
            final(self).written_objects == old(self).written_objects,
            final(self).hash_algo == old(self).hash_algo,
            final(self).state == if old(self).state is Ready
                && old(self).sink.spec_report().emitted_bytes == 0
                && old(self).sink.spec_state() is Open {
                PackWriterState::Ready
            } else {
                PackWriterState::Aborted
            },
            if old(self).sink.spec_state() is Open && old(self).sink.spec_report().emitted_bytes > 0 {
                final(self).sink.spec_state() == PackSinkState::Aborted(spec_abort_reason(error))
            } else {
                final(self).sink == old(self).sink
            },
            *final(self) == (Self {
                sink: final(self).sink,
                state: final(self).state,
                ..*old(self)
            }),
    {
        let reason = abort_reason(error);
        let output_started = self.sink.report().emitted_bytes > 0;
        if output_started && self.sink.state() == PackSinkState::Open {
            let _aborted = self.sink.abort(reason);
        }
        if output_started || self.sink.state() != PackSinkState::Open {
            self.state = PackWriterState::Aborted;
        }
        self.failure(error)
    }

    fn failure(&self, error: PackWriterError) -> (failure: PackWriterFailure)
        ensures
            failure.error == error,
            failure.report == self.spec_report(),
    {
        PackWriterFailure { error, report: self.report() }
    }
}

/// The writer's name for a stream failure.
pub open spec fn writer_error(error: PackStreamError) -> PackWriterError {
    match error {
        PackStreamError::Cancelled => PackWriterError::Cancelled,
        PackStreamError::ByteOverflow => PackWriterError::ByteOverflow,
        PackStreamError::Allocation => PackWriterError::Allocation,
        PackStreamError::TotalLimit => PackWriterError::OutputLimit,
        PackStreamError::ChunkTooLarge => PackWriterError::OutputLimit,
        other => PackWriterError::Sink(other),
    }
}

/// Map a stream failure to the writer's error.
pub fn map_stream_writer_error(error: PackStreamError) -> (mapped: PackWriterError)
    ensures
        mapped == writer_error(error),
{
    match error {
        PackStreamError::Cancelled => PackWriterError::Cancelled,
        PackStreamError::ByteOverflow => PackWriterError::ByteOverflow,
        PackStreamError::Allocation => PackWriterError::Allocation,
        PackStreamError::TotalLimit | PackStreamError::ChunkTooLarge => {
            PackWriterError::OutputLimit
        },
        other => PackWriterError::Sink(other),
    }
}

/// The abort category of a writer error.
pub open spec fn spec_abort_reason(error: PackWriterError) -> PackAbortReason {
    match error {
        PackWriterError::Cancelled => PackAbortReason::Cancelled,
        PackWriterError::InvalidLimits => PackAbortReason::LimitExceeded,
        PackWriterError::ObjectCount => PackAbortReason::LimitExceeded,
        PackWriterError::TooManyObjects => PackAbortReason::LimitExceeded,
        PackWriterError::ObjectCountMismatch => PackAbortReason::LimitExceeded,
        PackWriterError::ByteOverflow => PackAbortReason::LimitExceeded,
        PackWriterError::OutputLimit => PackAbortReason::LimitExceeded,
        PackWriterError::Sink(_) => PackAbortReason::SinkFailure,
        PackWriterError::InvalidState(_) => PackAbortReason::EncodingFailure,
        PackWriterError::Allocation => PackAbortReason::EncodingFailure,
        PackWriterError::Compression => PackAbortReason::EncodingFailure,
        PackWriterError::MissingFallback => PackAbortReason::EncodingFailure,
    }
}

/// Return the abort category of a writer error.
pub fn abort_reason(error: PackWriterError) -> (reason: PackAbortReason)
    ensures
        reason == spec_abort_reason(error),
{
    match error {
        PackWriterError::Cancelled => PackAbortReason::Cancelled,
        PackWriterError::InvalidLimits
        | PackWriterError::ObjectCount
        | PackWriterError::TooManyObjects
        | PackWriterError::ObjectCountMismatch
        | PackWriterError::ByteOverflow
        | PackWriterError::OutputLimit => PackAbortReason::LimitExceeded,
        PackWriterError::Sink(_) => PackAbortReason::SinkFailure,
        PackWriterError::InvalidState(_)
        | PackWriterError::Allocation
        | PackWriterError::Compression
        | PackWriterError::MissingFallback => PackAbortReason::EncodingFailure,
    }
}

} // verus!
