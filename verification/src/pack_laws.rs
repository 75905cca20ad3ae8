//! What holds of packs that are written: of the entries that are reused, of the bytes that stand for
//! them, and of the stream that takes them.

use crate::bytes::{
    be_bytes, be_value, lemma_be_bytes_len, lemma_be_decode_encode, lemma_pow256_values,
};
use crate::clone_metrics::CloneLimits;
use crate::object::{HashAlgo, ObjectId, ObjectKind, StoredObject};
use crate::pack_entry_reuse::{
    source_fault_after, source_fault_before, EntrySource, PackEntryPlan, PackRecompressReason,
    PackReuseCapabilities, StoredPackEntryKind, ValidatedPackEntry,
};
use crate::pack_stream::{
    spec_default_limits, BoundedVecPackSink, CancellationGate, CancellationProbe, PackAbortReason,
    PackSinkState, PackStreamError, PackStreamLimits,
};
use crate::pack_stream::PackChunkSink;
use crate::pack_writer::{
    object_appended, pack_header, plan_fits, reused_entry_bytes, reused_sizes, spec_abort_reason,
    writer_error, PackWriterError,
};
use crate::varint::{entry_header, law_ofs_distance_reads_back, ofs_distance, ofs_fold, two64};
use crate::zlib::zlib_decoded;
use vstd::prelude::*;

verus! {

/// An entry that stands for itself is always reused; a delta is reused exactly where its base was
/// written earlier to the same output, and one that counts back only where the receiver can read it.
/// Whatever is reused keeps its stream, its sizes and its kind.
pub proof fn law_proven_entries_are_reused(
    plan: PackEntryPlan,
    source: ValidatedPackEntry,
    offsets: Map<ObjectId, u64>,
    capabilities: PackReuseCapabilities,
    output_offset: u64,
)
    requires
        plan.follows(source, offsets, capabilities, output_offset),
    ensures
        match source.spec_kind() {
            StoredPackEntryKind::Direct(kind) => {
                &&& plan matches PackEntryPlan::Direct(entry)
                &&& entry.kind == kind
                &&& entry.declared_size == source.spec_declared_size()
                &&& entry.compressed@ == source.spec_compressed()
            },
            StoredPackEntryKind::RefDelta { base, result_kind, .. } => {
                let proven = offsets.dom().contains(base) && offsets[base] < output_offset;
                &&& proven <==> plan is RefDelta
                &&& plan matches PackEntryPlan::RefDelta(entry) ==> {
                    &&& entry.base == base
                    &&& entry.result_kind == result_kind
                    &&& entry.result_size == source.spec_result_size()
                    &&& entry.declared_size == source.spec_declared_size()
                    &&& entry.compressed@ == source.spec_compressed()
                }
                &&& !proven ==> plan == PackEntryPlan::RecompressFallback(
                    PackRecompressReason::UnprovenBase,
                )
            },
            StoredPackEntryKind::OfsDelta { base, result_kind, .. } => {
                let written = offsets.dom().contains(base);
                let proven = written && offsets[base] < output_offset;
                &&& capabilities.ofs_delta && proven <==> plan is OfsDelta
                &&& plan matches PackEntryPlan::OfsDelta(entry) ==> {
                    &&& entry.base_output_offset == offsets[base]
                    &&& entry.result_kind == result_kind
                    &&& entry.result_size == source.spec_result_size()
                    &&& entry.declared_size == source.spec_declared_size()
                    &&& entry.compressed@ == source.spec_compressed()
                }
                &&& !capabilities.ofs_delta ==> plan == PackEntryPlan::RecompressFallback(
                    PackRecompressReason::OfsDeltaUnsupported,
                )
                &&& capabilities.ofs_delta && !written ==> plan
                    == PackEntryPlan::RecompressFallback(PackRecompressReason::UnprovenBase)
                &&& capabilities.ofs_delta && written && !proven ==> plan
                    == PackEntryPlan::RecompressFallback(
                    PackRecompressReason::InvalidOutputDistance,
                )
            },
        },
{
}

/// The kind that a plan emits is the kind of the object, and none where it is compressed anew.
pub proof fn law_reused_kind_is_the_objects(
    plan: PackEntryPlan,
    source: ValidatedPackEntry,
    offsets: Map<ObjectId, u64>,
    capabilities: PackReuseCapabilities,
    output_offset: u64,
)
    requires
        plan.follows(source, offsets, capabilities, output_offset),
    ensures
        plan is RecompressFallback <==> plan.spec_reused_kind() is None,
        plan.spec_reused_kind() matches Some(kind) ==> kind == match source.spec_kind() {
            StoredPackEntryKind::Direct(kind) => kind,
            StoredPackEntryKind::RefDelta { result_kind, .. } => result_kind,
            StoredPackEntryKind::OfsDelta { result_kind, .. } => result_kind,
        },
{
}

/// A source entry passes, before its stream is read, exactly where the pack is one, the stream is
/// not empty, the identity is of the pack's algorithm and not zero, and the header says the kind and
/// the size that are recorded.
pub proof fn law_sound_sources_pass(
    checksum: Seq<u8>,
    object_count: u64,
    size_bytes: u64,
    algo: HashAlgo,
    header: Seq<u8>,
    source: EntrySource,
    compressed: Seq<u8>,
)
    ensures
        source_fault_before(checksum, object_count, size_bytes, algo, header, source, compressed)
            is None <==> {
            &&& checksum.len() == algo.spec_len()
            &&& exists|i: int| 0 <= i < checksum.len() && #[trigger] checksum[i] != 0
            &&& object_count >= 1
            &&& size_bytes >= 12 + algo.spec_len()
            &&& compressed.len() >= 1
            &&& source.result_oid.spec_algo() == algo
            &&& !source.result_oid.spec_is_zero()
            &&& header == entry_header(
                match source.kind {
                    StoredPackEntryKind::Direct(ObjectKind::Commit) => 1,
                    StoredPackEntryKind::Direct(ObjectKind::Tree) => 2,
                    StoredPackEntryKind::Direct(ObjectKind::Blob) => 3,
                    StoredPackEntryKind::Direct(ObjectKind::Tag) => 4,
                    StoredPackEntryKind::OfsDelta { .. } => 6,
                    StoredPackEntryKind::RefDelta { .. } => 7,
                },
                source.declared_size as nat,
            )
            &&& source.kind is Direct ==> source.declared_size == source.result_size
        },
{
    let code = source.kind.code();
    assert(code < 8);
    assert((source.declared_size as nat) < two64());
    if header == entry_header(code, source.declared_size as nat) {
        assert(!(forall|size: nat| size < two64() ==> header != #[trigger] entry_header(code, size)));
        assert(!(forall|other: u8, size: nat|
            other < 8 && size < two64() ==> header != #[trigger] entry_header(other, size)));
    }
}

/// Behind its stream an entry passes exactly where it lies between the header and the trailer of its
/// pack, and a base, if it has one, is a nonzero identity of the algorithm, named in as many bytes
/// as its form takes.
pub proof fn law_sound_spans_pass(
    size_bytes: u64,
    algo: HashAlgo,
    header: Seq<u8>,
    source: EntrySource,
    compressed: Seq<u8>,
)
    requires
        header.len() + source.delta_base_header_bytes + compressed.len() <= usize::MAX,
        source.source_offset + header.len() + source.delta_base_header_bytes + compressed.len()
            <= u64::MAX,
    ensures
        source_fault_after(size_bytes, algo, header, source, compressed) is None <==> {
            &&& source.source_offset >= 12
            &&& source.source_offset + header.len() + source.delta_base_header_bytes
                + compressed.len() + algo.spec_len() <= size_bytes
            &&& match source.kind {
                StoredPackEntryKind::Direct(_) => source.delta_base_header_bytes == 0,
                StoredPackEntryKind::RefDelta { base, .. } => base.spec_algo() == algo
                    && !base.spec_is_zero() && source.delta_base_header_bytes == algo.spec_len(),
                StoredPackEntryKind::OfsDelta { base, .. } => base.spec_algo() == algo
                    && !base.spec_is_zero() && 1 <= source.delta_base_header_bytes <= 10,
            }
        },
{
}

/// A retained entry stands for an object exactly where identity, size and kind agree.
pub proof fn law_entries_stand_for_their_objects(
    entry: ValidatedPackEntry,
    oid: ObjectId,
    object: StoredObject,
)
    ensures
        entry.stands_for(oid, object) <==> {
            &&& entry.spec_result_oid() == oid
            &&& entry.spec_result_size() == object.data@.len()
            &&& object.kind == match entry.spec_kind() {
                StoredPackEntryKind::Direct(kind) => kind,
                StoredPackEntryKind::RefDelta { result_kind, .. } => result_kind,
                StoredPackEntryKind::OfsDelta { result_kind, .. } => result_kind,
            }
        },
{
}

/// A reused entry is written as a header of its type and declared size, its base where it has one,
/// and its stream; a base that is counted back to is the one at the recorded offset.
pub proof fn law_reused_entries_read_back(plan: PackEntryPlan, output_offset: int)
    requires
        plan matches PackEntryPlan::OfsDelta(entry) ==> entry.base_output_offset < output_offset,
    ensures
        ({
            let bytes = reused_entry_bytes(plan, output_offset);
            match plan {
                PackEntryPlan::Direct(entry) => bytes == entry_header(
                    entry.kind.code(),
                    entry.declared_size as nat,
                ) + entry.compressed@,
                PackEntryPlan::RefDelta(entry) => bytes == entry_header(
                    7,
                    entry.declared_size as nat,
                ) + entry.base@ + entry.compressed@,
                PackEntryPlan::OfsDelta(entry) => exists|distance: Seq<u8>|
                    bytes == entry_header(6, entry.declared_size as nat) + distance
                        + entry.compressed@ && output_offset - #[trigger] ofs_fold(distance)
                        == entry.base_output_offset,
                PackEntryPlan::RecompressFallback(_) => bytes.len() == 0,
            }
        }),
{
    if let PackEntryPlan::OfsDelta(entry) = plan {
        let distance = (output_offset - entry.base_output_offset) as nat;
        law_ofs_distance_reads_back(distance);
        assert(ofs_fold(ofs_distance(distance)) == distance);
    }
}

/// What is accounted for a reused entry is the size of its object and the length of its stream.
pub proof fn law_reused_entries_are_accounted(plan: PackEntryPlan)
    ensures
        reused_sizes(plan) == match plan {
            PackEntryPlan::Direct(entry) => (entry.declared_size, entry.compressed@.len()),
            PackEntryPlan::RefDelta(entry) => (entry.result_size, entry.compressed@.len()),
            PackEntryPlan::OfsDelta(entry) => (entry.result_size, entry.compressed@.len()),
            PackEntryPlan::RecompressFallback(_) => (0u64, 0nat),
        },
{
}

/// A pack starts with its signature, version two and the number of its entries.
pub proof fn law_pack_headers_announce_their_entries(count: u32)
    ensures
        pack_header(count).len() == 12,
        pack_header(count).subrange(0, 4) == seq![80u8, 65u8, 67u8, 75u8],
        be_value(pack_header(count).subrange(4, 8)) == 2,
        be_value(pack_header(count).subrange(8, 12)) == count,
{
    lemma_pow256_values();
    lemma_be_bytes_len(2, 4);
    lemma_be_bytes_len(count as int, 4);
    lemma_be_decode_encode(2, 4);
    lemma_be_decode_encode(count as int, 4);
    let bytes = pack_header(count);
    assert(bytes.subrange(0, 4) =~= seq![80u8, 65u8, 67u8, 75u8]);
    assert(bytes.subrange(4, 8) =~= be_bytes(2, 4));
    assert(bytes.subrange(8, 12) =~= be_bytes(count as int, 4));
}

/// Appending an object leaves what was written, and adds a header of its kind and size and a stream
/// that inflates to it.
pub proof fn law_appended_objects_follow_what_was_written(
    before: Seq<u8>,
    after: Seq<u8>,
    kind: ObjectKind,
    data: Seq<u8>,
)
    requires
        object_appended(before, after, kind, data),
    ensures
        ({
            let header = entry_header(kind.code(), data.len());
            let start = (before.len() + header.len()) as int;
            &&& before.is_prefix_of(after)
            &&& after.len() >= start
            &&& after.subrange(before.len() as int, start) == header
            &&& zlib_decoded(after.skip(start)) == Some(data)
        }),
{
    let header = entry_header(kind.code(), data.len());
    let front = before + header;
    assert(after.take(front.len() as int) == front);
    assert(after.subrange(before.len() as int, front.len() as int) =~= header) by {
        assert forall|i: int| before.len() <= i < front.len() implies after[i] == header[i
            - before.len()] by {
            assert(after[i] == after.take(front.len() as int)[i]);
        }
    }
    assert(before =~= after.subrange(0, before.len() as int)) by {
        assert forall|i: int| 0 <= i < before.len() implies after[i] == before[i] by {
            assert(after[i] == after.take(front.len() as int)[i]);
        }
    }
}

/// A writer may start exactly where its limits are valid, the entries are not too many, a chunk is
/// within what may be in flight and holds the header and the trailer, and an empty pack fits.
pub proof fn law_writer_starts_within_limits(
    planned: usize,
    algo: HashAlgo,
    stream: PackStreamLimits,
    clone: CloneLimits,
)
    ensures
        plan_fits(planned, algo, stream, clone) <==> {
            &&& stream.valid()
            &&& clone.valid()
            &&& planned <= clone.max_selected_objects
            &&& 12 <= stream.max_chunk_bytes <= clone.encoded_bytes_in_flight
            &&& algo.spec_len() <= stream.max_chunk_bytes
            &&& 12 + algo.spec_len() <= stream.max_total_bytes
            &&& 12 + algo.spec_len() <= clone.max_output_bytes
        },
{
}

/// A failure of the stream keeps its sense: cancellation stays cancellation, a chunk or a total that
/// is too large is the output limit, and only what is left is the sink's.
pub proof fn law_stream_failures_keep_their_sense(error: PackStreamError)
    ensures
        writer_error(error) == PackWriterError::Cancelled <==> error == PackStreamError::Cancelled,
        writer_error(error) == PackWriterError::ByteOverflow <==> error
            == PackStreamError::ByteOverflow,
        writer_error(error) == PackWriterError::Allocation <==> error
            == PackStreamError::Allocation,
        writer_error(error) == PackWriterError::OutputLimit <==> error
            == PackStreamError::TotalLimit || error == PackStreamError::ChunkTooLarge,
        writer_error(error) matches PackWriterError::Sink(kept) ==> kept == error,
        error is InvalidLimits || error is InvalidState || error is SinkFailure
            ==> writer_error(error) is Sink,
{
}

/// A stream is aborted as cancelled only where it was, for its sink only where that failed, and for
/// a limit where one was exceeded.
pub proof fn law_abort_reasons_tell_the_failure(error: PackWriterError)
    ensures
        spec_abort_reason(error) == PackAbortReason::Cancelled <==> error
            == PackWriterError::Cancelled,
        spec_abort_reason(error) == PackAbortReason::SinkFailure <==> error is Sink,
        spec_abort_reason(error) == PackAbortReason::LimitExceeded <==> error
            == PackWriterError::InvalidLimits || error == PackWriterError::ObjectCount || error
            == PackWriterError::TooManyObjects || error == PackWriterError::ObjectCountMismatch
            || error == PackWriterError::ByteOverflow || error == PackWriterError::OutputLimit,
        spec_abort_reason(error) == PackAbortReason::EncodingFailure <==> error
            is InvalidState || error == PackWriterError::Allocation || error
            == PackWriterError::Compression || error == PackWriterError::MissingFallback,
{
}

/// Stream limits may be used exactly where they are positive, within their ceilings, and a chunk is
/// within a queue, a queue within what is in flight, and a chunk within one checkpoint.
pub proof fn law_usable_stream_limits(limits: PackStreamLimits)
    requires
        usize::MAX >= 4_294_967_296,
    ensures
        limits.valid() <==> {
            &&& 1 <= limits.max_chunk_bytes <= 16_777_216
            &&& limits.max_chunk_bytes <= limits.max_queued_bytes
            &&& limits.max_queued_bytes <= 1_073_741_824
            &&& limits.max_queued_bytes <= limits.max_in_flight_bytes
            &&& limits.max_in_flight_bytes <= 4_294_967_296
            &&& 1 <= limits.max_total_bytes <= 17_592_186_044_416
            &&& limits.max_chunk_bytes <= limits.cancellation_checkpoint_bytes
            &&& limits.cancellation_checkpoint_bytes <= 1_073_741_824
        },
        spec_default_limits().valid(),
{
}

/// Progress is checked once for every full interval: the checks made and the progress since the
/// last one are quotient and remainder of all progress by the interval.
pub proof fn law_checks_keep_pace_with_progress<P: CancellationProbe>(
    before: CancellationGate<P>,
    after: CancellationGate<P>,
    bytes: u64,
    result: Result<(), PackStreamError>,
)
    requires
        before.wf(),
        bytes <= before.spec_max_observation(),
        before.spec_report().checks < u64::MAX,
        CancellationGate::<P>::observed(before, after, bytes, result),
    ensures
        ({
            let progress = before.spec_since_check() + bytes;
            let interval = before.spec_checkpoint() as int;
            &&& after.spec_report().checks - before.spec_report().checks == progress / interval
            &&& after.spec_since_check() == progress % interval
            &&& result is Err ==> result == Err::<(), PackStreamError>(PackStreamError::Cancelled)
                && after.spec_report().observed && progress >= interval
        }),
{
    let progress = before.spec_since_check() + bytes;
    let interval = before.spec_checkpoint() as int;
    if progress < interval {
        vstd::arithmetic::div_mod::lemma_fundamental_div_mod_converse(
            progress,
            interval,
            0,
            progress,
        );
    } else {
        vstd::arithmetic::div_mod::lemma_fundamental_div_mod_converse(
            progress,
            interval,
            1,
            progress - interval,
        );
    }
}

/// More progress than one observation may report is refused, and changes nothing.
pub proof fn law_too_much_progress_is_refused<P: CancellationProbe>(
    before: CancellationGate<P>,
    after: CancellationGate<P>,
    bytes: u64,
    result: Result<(), PackStreamError>,
)
    requires
        bytes > before.spec_max_observation(),
        CancellationGate::<P>::observed(before, after, bytes, result),
    ensures
        result == Err::<(), PackStreamError>(PackStreamError::ChunkTooLarge),
        after == before,
{
}

/// An open sink refuses a chunk exactly where it is too long, or where it would make the stream too
/// long or its chunks too many to count.
pub proof fn law_sink_takes_what_fits(sink: BoundedVecPackSink, length: nat)
    requires
        sink.spec_limits().max_total_bytes <= 17_592_186_044_416,
        sink.spec_report().emitted_chunks < u64::MAX,
    ensures
        sink.write_fault(length) is None <==> length <= sink.spec_limits().max_chunk_bytes
            && sink.accepted().len() + length <= sink.spec_limits().max_total_bytes,
        sink.write_fault(length) == Some(PackStreamError::ChunkTooLarge) <==> length
            > sink.spec_limits().max_chunk_bytes,
{
}

/// An aborted sink publishes nothing, keeps nothing, and says why.
pub proof fn law_aborted_sinks_publish_nothing(
    before: BoundedVecPackSink,
    after: BoundedVecPackSink,
    reason: PackAbortReason,
)
    requires
        after.aborted_from(before, reason),
    ensures
        after.spec_published() is None,
        after.accepted().len() == 0,
        after.spec_state() == PackSinkState::Aborted(reason),
        after.spec_report().aborted == Some(reason),
        after.spec_report().emitted_bytes == before.spec_report().emitted_bytes,
        after.spec_report().finished == before.spec_report().finished,
{
}

/// A validated entry holds what was validated, each fact in its own place.
pub proof fn law_validated_entry_holds_its_facts(
    entry: crate::pack_entry_reuse::ValidatedPackEntry,
    checksum: Seq<u8>,
    source: crate::pack_entry_reuse::EntrySource,
    compressed: Seq<u8>,
)
    ensures
        entry.binds(checksum, source, compressed) <==> (checksum == entry.spec_checksum()@
            && source.source_offset == entry.spec_source_offset() && source.kind
            == entry.spec_kind() && source.declared_size == entry.spec_declared_size()
            && source.result_size == entry.spec_result_size() && source.result_oid
            == entry.spec_result_oid() && compressed == entry.spec_compressed()),
{
}

/// An entry is a delta exactly where it names a base, and its base's size is the one it names.
pub proof fn law_deltas_name_their_bases(kind: crate::pack_entry_reuse::StoredPackEntryKind)
    ensures
        kind is Direct <==> !kind.is_delta(),
        kind is RefDelta || kind is OfsDelta <==> kind.is_delta(),
        kind matches crate::pack_entry_reuse::StoredPackEntryKind::RefDelta { base_size, .. }
            ==> kind.delta_base_size() == base_size,
        kind matches crate::pack_entry_reuse::StoredPackEntryKind::OfsDelta { base_size, .. }
            ==> kind.delta_base_size() == base_size,
{
}

/// A size in a delta's header takes one to ten bytes: all but the last are continued, the last is
/// not, and it reads as the number that their low seven bits spell.
pub proof fn law_delta_sizes_end_where_they_end(bytes: Seq<u8>, at: int, value: u64, next: int)
    requires
        crate::pack_entry_reuse::reads_size(bytes, at, value, next),
    ensures
        0 <= at < next <= bytes.len(),
        next - at <= 10,
        bytes[next - 1] < 128,
        forall|i: int| at <= i < next - 1 ==> #[trigger] bytes[i] >= 128,
        value as int == crate::pack_entry_reuse::digits_value(bytes, at, (next - at) as nat)
            % 0x1_0000_0000_0000_0000int,
        !crate::pack_entry_reuse::no_size(bytes, at),
{
    assert(crate::pack_entry_reuse::size_ends(bytes, at, (next - at) as nat));
}

/// What is written for an entry is added to what was written before.
pub proof fn law_written_bytes_are_counted<
    S: crate::pack_stream::PackChunkSink,
    P: crate::pack_stream::CancellationProbe,
>(
    before: crate::pack_writer::IncrementalPackWriter<S, P>,
    after: crate::pack_writer::IncrementalPackWriter<S, P>,
    report: crate::pack_writer::PackObjectWriteReport,
)
    ensures
        after.counted(before, report) <==> (after.spec_report().decoded_bytes
            - before.spec_report().decoded_bytes == report.decoded_bytes
            && after.spec_report().compressed_bytes - before.spec_report().compressed_bytes
            == report.compressed_bytes),
{
}

/// A failed stream is never open again; unless the sink failed by itself, it was aborted, and for the
/// reason of the failure.
pub proof fn law_failed_streams_are_aborted<S: crate::pack_stream::PackChunkSink>(
    sink: S,
    error: crate::pack_writer::PackWriterError,
)
    requires
        crate::pack_writer::stream_ended(sink, error),
    ensures
        !(sink.spec_state() is Open),
        !(error is Sink) ==> sink.spec_state() is Aborted,
        !(error is Sink) ==> sink.spec_state()->Aborted_0 == crate::pack_writer::spec_abort_reason(
            error,
        ),
{
}

/// One more digit counts 128 times as much as the one before it: sizes are spelled with the least
/// significant digit first.
pub proof fn law_later_digits_count_more(bytes: Seq<u8>, at: int, count: nat)
    ensures
        crate::pack_entry_reuse::digits_value(bytes, at, 0) == 0,
        crate::pack_entry_reuse::digits_value(bytes, at, count + 1)
            == crate::pack_entry_reuse::digits_value(bytes, at, count) + (bytes[at + count] % 128)
            * crate::varint::pow128(count),
    decreases count,
{
    reveal_with_fuel(crate::pack_entry_reuse::digits_value, 2);
    if count > 0 {
        let less = (count - 1) as nat;
        law_later_digits_count_more(bytes, at + 1, less);
        let digit = (bytes[at + count] % 128) as int;
        let weight = crate::varint::pow128(less);
        assert(at + 1 + less == at + count);
        assert(128 * (digit * weight) == digit * (128 * weight)) by (nonlinear_arith);
        let rest = crate::pack_entry_reuse::digits_value(bytes, at + 1, less);
        assert(crate::pack_entry_reuse::digits_value(bytes, at + 1, count) == rest + digit * weight);
    } else {
        let digit = (bytes[at] % 128) as int;
        assert(digit * 1 == digit) by (nonlinear_arith);
    }
}

} // verus!
