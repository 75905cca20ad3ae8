//! What holds of every thin pack that is planned for and completed.

use crate::bytes::{
    be_bytes, be_value, lemma_be_bytes_len, lemma_be_decode_encode, lemma_pow256_values,
};
use crate::digest::{canonical_id, digest_of};
use crate::object::{HashAlgo, ObjectId, ObjectKind};
use crate::push_fix_thin::{
    base_bytes, base_entries, base_entry, base_from, base_told, bases_described, base_ordered,
    described_fault, fingerprint_code, first_described_fault, fixed_from, framed, mapped_error,
    outside_base, plan_bound, plan_follows, recounted_header, row_spans, rows_end, sizes_fault,
    source_bound, spans_tile, structural_bytes, sum_packed, sum_payload, target_bound,
    thickened_from, untimely, upper_bound_of, AuthorizedThinBase, FixThinBase, FixThinControl,
    FixThinError, FixThinObservation, FixThinOptions, FixThinPlan, FixedThinPack,
    ThinBaseAuthorization,
};
use crate::push_pack_validation::{
    PushPackEntryKind, PushPackIndexRow, PushPackValidationError, StructuralParser,
    ValidatedPushPack,
};
use crate::push_quarantine::{
    QuarantineFence, QuarantineManifest, QuarantineSnapshot, QuarantineState,
};
use crate::varint::entry_header;
use crate::zlib::zlib_decoded;
use vstd::prelude::*;

verus! {

/// Options may be used exactly where every bound is positive and covered by the limits, and the run
/// is not empty and not too long.
pub proof fn law_usable_options(options: FixThinOptions)
    ensures
        options.valid() <==> {
            &&& options.limits.fault() is None
            &&& 1 <= options.max_added_bases <= options.limits.max_objects
            &&& 1 <= options.max_added_base_bytes <= options.limits.max_inflated_bytes
            &&& 1 <= options.source_chunk_bytes <= options.limits.bytes_in_flight
            &&& 1 <= options.base_chunk_bytes
            &&& 1 <= options.output_chunk_bytes
            &&& options.base_chunk_bytes + options.output_chunk_bytes
                <= options.limits.bytes_in_flight
            &&& options.started_at.unix_nanos < options.deadline.unix_nanos
            &&& options.deadline.unix_nanos - options.started_at.unix_nanos
                <= options.limits.max_duration.nanos
        },
{
}

/// What may be described for a list of identities: one of them, described once, not in the pack, of
/// its algorithm, of this repository, allowed, at a version and within the size.
pub open spec fn usable(
    described: Seq<AuthorizedThinBase>,
    i: int,
    requested: Seq<ObjectId>,
    rows: Seq<PushPackIndexRow>,
    tenant: Seq<char>,
    repository: Seq<char>,
    algo: HashAlgo,
    max_object_bytes: u64,
) -> bool {
    let base = described[i];
    &&& requested.contains(base.oid)
    &&& forall|j: int| 0 <= j < i ==> (#[trigger] described[j]).oid != base.oid
    &&& forall|k: int| 0 <= k < rows.len() ==> (#[trigger] rows[k]).oid != base.oid
    &&& base.oid.spec_algo() == algo
    &&& base.tenant@ == tenant
    &&& base.repository@ == repository
    &&& base.authorization == ThinBaseAuthorization::Allowed
    &&& base.payload_bytes <= max_object_bytes
    &&& base.authorization_version >= 1
}

/// Descriptions are taken exactly where each of them may be used; one of another repository, or one
/// that is not allowed, is refused as unauthorized.
pub proof fn law_usable_descriptions_are_taken(
    described: Seq<AuthorizedThinBase>,
    from: int,
    requested: Seq<ObjectId>,
    rows: Seq<PushPackIndexRow>,
    tenant: Seq<char>,
    repository: Seq<char>,
    algo: HashAlgo,
    max_object_bytes: u64,
)
    requires
        0 <= from <= described.len(),
    ensures
        first_described_fault(
            described,
            from,
            requested,
            rows,
            tenant,
            repository,
            algo,
            max_object_bytes,
        ) is None <==> forall|i: int|
            from <= i < described.len() ==> #[trigger] usable(
                described,
                i,
                requested,
                rows,
                tenant,
                repository,
                algo,
                max_object_bytes,
            ),
        first_described_fault(
            described,
            from,
            requested,
            rows,
            tenant,
            repository,
            algo,
            max_object_bytes,
        ) == Some(FixThinError::UnauthorizedBase) ==> exists|i: int|
            from <= i < described.len() && ((#[trigger] described[i]).tenant@ != tenant
                || described[i].repository@ != repository || described[i].authorization
                == ThinBaseAuthorization::Denied),
    decreases described.len() - from,
{
    if from < described.len() {
        law_usable_descriptions_are_taken(
            described,
            from + 1,
            requested,
            rows,
            tenant,
            repository,
            algo,
            max_object_bytes,
        );
        assert(described_fault(
            described,
            from,
            requested,
            rows,
            tenant,
            repository,
            algo,
            max_object_bytes,
        ) is None <==> usable(
            described,
            from,
            requested,
            rows,
            tenant,
            repository,
            algo,
            max_object_bytes,
        ));
        let base = described[from];
        assert(base.tenant == base.tenant);
    }
}

/// A plan carries each base with the kind, the size and the version that the provider described,
/// in the order of the identities that were asked for.
pub proof fn law_planned_bases_are_the_described_ones(
    bases: Seq<FixThinBase>,
    requested: Seq<ObjectId>,
    described: Seq<AuthorizedThinBase>,
    k: int,
)
    requires
        bases_described(bases, requested, described),
        0 <= k < bases.len(),
    ensures
        bases.len() == requested.len(),
        bases[k].oid == requested[k],
        exists|i: int|
            0 <= i < described.len() && (#[trigger] described[i]).oid == bases[k].oid
                && described[i].kind == bases[k].kind && described[i].payload_bytes
                == bases[k].payload_bytes && described[i].authorization_version
                == bases[k].authorization_version,
{
    assert(base_told(bases[k], described));
    let i = choose|i: int| 0 <= i < described.len() && base_from(bases[k], #[trigger] described[i]);
    assert(described[i].oid == bases[k].oid);
}

/// A row needs an object from outside exactly where it is a delta against an identity that is not in
/// the pack.
pub proof fn law_outside_bases_are_those_of_outside_deltas(row: PushPackIndexRow, oid: ObjectId)
    ensures
        outside_base(row) == Some(oid) <==> row.representation == (PushPackEntryKind::RefDelta {
            base_oid: oid,
            external: true,
        }),
        outside_base(row) is Some ==> (row.representation matches PushPackEntryKind::RefDelta {
            external,
            ..
        } && external),
{
}

/// A plan's numbers add up: the bytes of its bases, an output that holds the source and every base
/// packed at its worst, and two units of work for each byte of a base beside one for each byte
/// copied and each entry; and they keep to the limits.
pub proof fn law_plan_numbers_add_up(
    plan: FixThinPlan,
    validated: ValidatedPushPack,
    source: QuarantineSnapshot,
    manifest: QuarantineManifest,
    described: Seq<AuthorizedThinBase>,
    requested: Seq<ObjectId>,
    options: FixThinOptions,
)
    requires
        plan_follows(plan, validated, source, manifest, described, requested, options),
    ensures
        plan.spec_added_bytes() == sum_payload(plan.spec_bases()),
        plan.spec_added_bytes() <= options.max_added_base_bytes,
        plan.spec_output_bound() >= manifest.pack_bytes + plan.spec_added_bytes() + 22
            * plan.spec_bases().len(),
        plan.spec_output_bound() <= options.limits.max_pack_bytes,
        plan.spec_work_units() == manifest.pack_bytes - 12 - manifest.hash_algo.spec_len() + 2
            * plan.spec_added_bytes() + validated.index@.len() + plan.spec_bases().len(),
        validated.summary.inflated_bytes + plan.spec_added_bytes()
            <= options.limits.max_inflated_bytes,
        validated.index@.len() + plan.spec_bases().len() <= options.limits.max_objects,
        plan.spec_tenant() == source.tenant@,
        plan.spec_repository() == source.repository@,
        plan.spec_source() == (source.id, source.generation),
        plan.spec_checksums() == (
            validated.attestation.pack_checksum,
            validated.attestation.index_checksum,
        ),
{
    lemma_packed_holds_payload(plan.spec_bases());
}

proof fn lemma_packed_holds_payload(bases: Seq<FixThinBase>)
    ensures
        sum_packed(bases) >= sum_payload(bases) + 22 * bases.len(),
        sum_payload(bases) >= 0,
    decreases bases.len(),
{
    if bases.len() > 0 {
        lemma_packed_holds_payload(bases.drop_last());
        law_compression_grows_by_blocks(bases.last().payload_bytes as int);
    }
}

/// Stored bytes grow by five for each started block of 16383 bytes, and by six for the frame.
pub proof fn law_compression_grows_by_blocks(input: int)
    requires
        input >= 0,
    ensures
        ({
            let blocks = (upper_bound_of(input) - input - 6) / 5;
            &&& upper_bound_of(input) == input + 5 * blocks + 6
            &&& blocks * 16_383 >= input
            &&& input > 0 ==> (blocks - 1) * 16_383 < input
            &&& input == 0 ==> blocks == 0
        }),
{
    let blocks = (input + 16_382) / 16_383;
    assert(upper_bound_of(input) == input + blocks * 5 + 6);
    assert((upper_bound_of(input) - input - 6) / 5 == blocks);
}

/// The numbers of a plan are refused exactly where a limit is exceeded or the pack is too short to
/// be one.
pub proof fn law_plan_is_refused_only_beyond_limits(
    bases: Seq<FixThinBase>,
    inflated_bytes: u64,
    objects: int,
    manifest: QuarantineManifest,
    options: FixThinOptions,
)
    requires
        objects >= 0,
        sum_payload(bases) <= options.max_added_base_bytes,
        inflated_bytes + sum_payload(bases) <= options.limits.max_inflated_bytes,
        manifest.pack_bytes + sum_packed(bases) <= options.limits.max_pack_bytes,
        objects + bases.len() <= options.limits.max_objects,
        objects + bases.len() <= u32::MAX,
        bases.len() * (vstd::layout::size_of::<FixThinBase>() + 128)
            <= options.limits.max_prepared_memory_bytes,
        manifest.pack_bytes >= 12 + manifest.hash_algo.spec_len(),
        manifest.pack_bytes + 2 * sum_payload(bases) + objects + bases.len() <= u64::MAX,
    ensures
        sizes_fault(bases, inflated_bytes, objects, manifest, options) is None,
{
}

/// The evidence of a validation belongs to a source exactly where both name the same quarantine,
/// generation, count, size and checksums, and the validation was completed.
pub proof fn law_evidence_belongs_to_its_source(
    validated: ValidatedPushPack,
    source: QuarantineSnapshot,
    manifest: QuarantineManifest,
)
    ensures
        source_bound(validated, source, manifest) <==> {
            &&& source.manifest == Some(manifest)
            &&& source.state == QuarantineState::Validated
            &&& source.id == validated.fence.id
            &&& source.generation == validated.fence.generation
            &&& source.bytes == manifest.pack_bytes
            &&& validated.index@.len() <= u32::MAX
            &&& manifest.object_count == validated.index@.len()
            &&& validated.attestation.object_count == validated.index@.len()
            &&& validated.summary.objects == validated.index@.len()
            &&& validated.attestation.validation_complete
            &&& manifest.pack_checksum == Some(validated.attestation.pack_checksum)
            &&& manifest.index_checksum == Some(validated.attestation.index_checksum)
            &&& manifest.self_contained == validated.attestation.self_contained
        },
{
}

/// A target may be written exactly where it is another, empty quarantine of the same repository
/// under its own fence.
pub proof fn law_target_is_another_empty_quarantine(
    plan: FixThinPlan,
    source: QuarantineSnapshot,
    target: QuarantineSnapshot,
    fence: QuarantineFence,
)
    ensures
        target_bound(plan, source, target, fence) <==> {
            &&& target.state == QuarantineState::Receiving
            &&& target.bytes == 0
            &&& target.manifest is None
            &&& target.id != source.id
            &&& target.id == fence.id
            &&& target.generation == fence.generation
            &&& target.tenant@ == source.tenant@
            &&& target.repository@ == source.repository@
            &&& plan.spec_tenant() == target.tenant@
            &&& plan.spec_repository() == target.repository@
        },
{
}

/// A plan is carried out only for the very source and validation that it was made for, within the
/// options, and with bases that ascend and have versions.
pub proof fn law_plan_is_for_its_source(
    plan: FixThinPlan,
    validated: ValidatedPushPack,
    source: QuarantineSnapshot,
    options: FixThinOptions,
)
    requires
        plan_bound(plan, validated, source, options),
    ensures
        plan.spec_tenant() == source.tenant@,
        plan.spec_repository() == source.repository@,
        plan.spec_source() == (source.id, source.generation),
        plan.spec_checksums() == (
            validated.attestation.pack_checksum,
            validated.attestation.index_checksum,
        ),
        1 <= plan.spec_bases().len() <= options.max_added_bases,
        plan.spec_added_bytes() <= options.max_added_base_bytes,
        plan.spec_output_bound() <= options.limits.max_pack_bytes,
        forall|k: int|
            0 <= k < plan.spec_bases().len() ==> (
            #[trigger] plan.spec_bases()[k]).authorization_version > 0,
        forall|k: int|
            0 < k < plan.spec_bases().len() ==> plan.spec_bases()[k - 1].oid.spec_before(
                (#[trigger] plan.spec_bases()[k]).oid,
            ),
{
    assert forall|k: int| 0 <= k < plan.spec_bases().len() implies (
    #[trigger] plan.spec_bases()[k]).authorization_version > 0 by {
        assert(base_ordered(plan.spec_bases(), k));
    }
    assert forall|k: int| 0 < k < plan.spec_bases().len() implies plan.spec_bases()[k
        - 1].oid.spec_before((#[trigger] plan.spec_bases()[k]).oid) by {
        assert(base_ordered(plan.spec_bases(), k - 1));
    }
}

/// A completed pack holds the source's entries as they were, behind the same signature and version
/// and a count of the entries and the bases together, and ends with the digest of all of it.
pub proof fn law_completed_pack_keeps_its_entries(
    source: Seq<u8>,
    target: Seq<u8>,
    rows: Seq<PushPackIndexRow>,
    bases: Seq<FixThinBase>,
    algo: HashAlgo,
)
    requires
        thickened_from(source, target, rows, bases, algo),
    ensures
        ({
            let end = rows_end(rows, rows.len() as int);
            let stop = target.len() - algo.spec_len();
            &&& target.subrange(0, 8) == source.subrange(0, 8)
            &&& be_value(target.subrange(8, 12)) == rows.len() + bases.len()
            &&& be_value(source.subrange(8, 12)) == rows.len()
            &&& target.subrange(12, end) == source.subrange(12, end)
            &&& target.skip(stop) == digest_of(algo, target.take(stop))
            &&& base_entries(bases, target.subrange(end, stop))
        }),
{
    let end = rows_end(rows, rows.len() as int);
    let stop = target.len() - algo.spec_len();
    let body = target.take(stop);
    let added = target.subrange(end, stop);
    let count = (rows.len() + bases.len()) as u32;
    let counted = be_bytes(count as int, 4);
    lemma_be_bytes_len(count as int, 4);
    lemma_pow256_values();
    lemma_be_decode_encode(count as int, 4);
    let front = recounted_header(source.take(12), count);
    assert(front.len() == 12);
    assert(body == front + source.subrange(12, end) + added);
    assert(target.subrange(0, 8) =~= source.subrange(0, 8)) by {
        assert(source.take(12).subrange(0, 8) =~= source.subrange(0, 8));
        assert forall|i: int| 0 <= i < 8 implies target[i] == source[i] by {
            assert(target[i] == body[i]);
            assert(body[i] == front[i]);
            assert(front[i] == source.take(12).subrange(0, 8)[i]);
        }
    }
    assert(target.subrange(8, 12) =~= counted) by {
        assert forall|i: int| 8 <= i < 12 implies target[i] == counted[i - 8] by {
            assert(target[i] == body[i]);
            assert(body[i] == front[i]);
        }
    }
    assert(source.take(12).subrange(8, 12) =~= source.subrange(8, 12));
    assert(target.subrange(12, end) =~= source.subrange(12, end)) by {
        assert forall|i: int| 12 <= i < end implies target[i] == source[i] by {
            assert(target[i] == body[i]);
            assert(body[i] == source.subrange(12, end)[i - 12]);
        }
    }
}

/// Each added base stands in the completed pack as an entry of its kind and size whose stream
/// inflates to the object that it names.
pub proof fn law_added_entries_are_their_bases(bases: Seq<FixThinBase>, bytes: Seq<u8>, k: int)
    requires
        base_entries(bases, bytes),
        0 <= k < bases.len(),
    ensures
        exists|start: int, stop: int|
            #![trigger bytes.subrange(start, stop)]
            0 <= start <= stop <= bytes.len() && {
                let entry = bytes.subrange(start, stop);
                let header = entry_header(bases[k].kind.code(), bases[k].payload_bytes as nat);
                &&& header.len() <= entry.len()
                &&& entry.take(header.len() as int) == header
                &&& zlib_decoded(entry.skip(header.len() as int)) matches Some(payload)
                &&& payload.len() == bases[k].payload_bytes
                &&& canonical_id(bases[k].oid.spec_algo(), bases[k].kind, payload) == bases[k].oid
            },
    decreases bases.len(),
{
    let split = choose|split: int|
        0 <= split <= bytes.len() && base_entries(bases.drop_last(), bytes.take(split))
            && #[trigger] base_entry(bases.last(), bytes.skip(split));
    if k == bases.len() - 1 {
        assert(bytes.subrange(split, bytes.len() as int) =~= bytes.skip(split));
    } else {
        law_added_entries_are_their_bases(bases.drop_last(), bytes.take(split), k);
        let front = bytes.take(split);
        let base = bases.drop_last()[k];
        assert(base == bases[k]);
        let (start, stop) = choose|start: int, stop: int|
            #![trigger front.subrange(start, stop)]
            0 <= start <= stop <= front.len() && {
                let entry = front.subrange(start, stop);
                let header = entry_header(base.kind.code(), base.payload_bytes as nat);
                &&& header.len() <= entry.len()
                &&& entry.take(header.len() as int) == header
                &&& zlib_decoded(entry.skip(header.len() as int)) matches Some(payload)
                &&& payload.len() == base.payload_bytes
                &&& canonical_id(base.oid.spec_algo(), base.kind, payload) == base.oid
            };
        assert(bytes.subrange(start, stop) =~= front.subrange(start, stop));
    }
}

/// A report counts what was copied, added and written.
pub proof fn law_report_counts_the_bytes<X: StructuralParser>(
    fixed: FixedThinPack,
    plan: FixThinPlan,
    validated: ValidatedPushPack,
    source: Seq<u8>,
    target: Seq<u8>,
    algo: HashAlgo,
    options: FixThinOptions,
)
    requires
        fixed_from::<X>(fixed, plan, validated, source, target, algo, options),
    ensures
        fixed.report.output_pack_bytes == target.len(),
        fixed.report.output_pack_bytes == 12 + fixed.report.copied_entry_bytes
            + fixed.report.added_packed_bytes + algo.spec_len(),
        fixed.report.added_base_bytes == plan.spec_added_bytes(),
        fixed.report.output_pack_bytes <= plan.spec_output_bound(),
        fixed.validated.attestation.self_contained,
        fixed.validated.attestation.object_count == validated.index@.len()
            + plan.spec_bases().len(),
        fixed.plan_fingerprint == plan.spec_fingerprint(),
{
}

/// A failure of the final validation keeps its name: a stop stays that stop, an unreadable
/// quarantine stays one, and anything else is told as a failed validation.
pub proof fn law_validation_failures_keep_their_names(error: PushPackValidationError)
    ensures
        mapped_error(error) == FixThinError::Cancelled <==> error
            == PushPackValidationError::Cancelled,
        mapped_error(error) == FixThinError::Deadline <==> error
            == PushPackValidationError::Deadline,
        mapped_error(error) == FixThinError::WorkBudget <==> error
            == PushPackValidationError::WorkBudget,
        mapped_error(error) == FixThinError::Quarantine <==> error
            == PushPackValidationError::Quarantine,
        error != PushPackValidationError::Cancelled && error != PushPackValidationError::Deadline
            && error != PushPackValidationError::WorkBudget && error
            != PushPackValidationError::Quarantine ==> mapped_error(error)
            == FixThinError::Validation(error),
{
}

/// The structure that added bases bring is accounted with eight bytes for each byte of a commit,
/// tree or tag, and 128 for each of them; blobs bring none.
pub proof fn law_added_structure_is_accounted(bases: Seq<FixThinBase>, base: FixThinBase)
    ensures
        structural_bytes(Seq::empty()) == 0,
        structural_bytes(bases.push(base)) == structural_bytes(bases) + if base.kind
            == ObjectKind::Blob {
            0
        } else {
            8 * base.payload_bytes + 128
        },
{
    assert(bases.push(base).drop_last() =~= bases);
}

/// Two bases of one algorithm that go into a fingerprint alike are the same base: in identity, kind,
/// size and version.
pub proof fn law_fingerprint_tells_bases_apart(a: FixThinBase, b: FixThinBase)
    requires
        a.oid.spec_algo() == b.oid.spec_algo(),
        base_bytes(a) == base_bytes(b),
    ensures
        a.oid@ == b.oid@,
        a.kind == b.kind,
        a.payload_bytes == b.payload_bytes,
        a.authorization_version == b.authorization_version,
{
    lemma_pow256_values();
    lemma_base_parts(a);
    lemma_base_parts(b);
    lemma_be_decode_encode(a.payload_bytes as int, 8);
    lemma_be_decode_encode(b.payload_bytes as int, 8);
    lemma_be_decode_encode(a.authorization_version as int, 8);
    lemma_be_decode_encode(b.authorization_version as int, 8);
}

proof fn lemma_base_parts(base: FixThinBase)
    ensures
        ({
            let n = base.oid@.len() as int;
            let bytes = base_bytes(base);
            &&& n == base.oid.spec_algo().spec_len()
            &&& bytes.subrange(8, 8 + n) == base.oid@
            &&& bytes[8 + n] == fingerprint_code(base.kind)
            &&& bytes.subrange(9 + n, 17 + n) == be_bytes(base.payload_bytes as int, 8)
            &&& bytes.subrange(17 + n, 25 + n) == be_bytes(base.authorization_version as int, 8)
        }),
{
    let n = base.oid@.len() as int;
    let bytes = base_bytes(base);
    lemma_be_bytes_len(n, 8);
    lemma_be_bytes_len(base.payload_bytes as int, 8);
    lemma_be_bytes_len(base.authorization_version as int, 8);
    match base.oid {
        ObjectId::Sha1 { high, tail } => {
            lemma_be_bytes_len(high as int, 16);
            lemma_be_bytes_len(tail as int, 4);
        },
        ObjectId::Sha256 { high, low } => {
            lemma_be_bytes_len(high as int, 16);
            lemma_be_bytes_len(low as int, 16);
        },
    }
    assert(bytes.subrange(8, 8 + n) =~= base.oid@);
    assert(bytes.subrange(9 + n, 17 + n) =~= be_bytes(base.payload_bytes as int, 8));
    assert(bytes.subrange(17 + n, 25 + n) =~= be_bytes(base.authorization_version as int, 8));
}

/// Rows tile a body exactly where each starts where the one before it ended, the first behind the
/// header and the last at the end, with nothing between their parts.
pub proof fn law_rows_tile_a_body(rows: Seq<PushPackIndexRow>, body_end: int, i: int)
    requires
        spans_tile(rows, body_end),
        0 <= i < rows.len(),
    ensures
        rows[0].entry.offset == 12,
        i + 1 < rows.len() ==> rows[i + 1].entry.offset == rows[i].entry.offset
            + rows[i].entry.length,
        i + 1 == rows.len() ==> rows[i].entry.offset + rows[i].entry.length == body_end,
        rows[i].header.offset == rows[i].entry.offset,
        rows[i].base_header.offset == rows[i].header.offset + rows[i].header.length,
        rows[i].compressed.offset == rows[i].base_header.offset + rows[i].base_header.length,
        rows[i].compressed.offset + rows[i].compressed.length == rows[i].entry.offset
            + rows[i].entry.length,
        rows[i].header.length > 0 && rows[i].compressed.length > 0,
        rows[i].representation is Direct <==> rows[i].base_header.length == 0,
{
    assert(row_spans(rows[0], 0, rows_end(rows, 0), body_end));
    assert(row_spans(rows[i], i, rows_end(rows, i), body_end));
    if i + 1 < rows.len() {
        assert(row_spans(rows[i + 1], i + 1, rows_end(rows, i + 1), body_end));
    }
}

/// A checkpoint that lets the run go on was observed from the start up to the deadline, and not
/// cancelled; a time inside the run is only untimely where another was later.
pub proof fn law_run_ends_at_its_deadline<C: FixThinControl>(
    options: FixThinOptions,
    observation: FixThinObservation,
)
    requires
        forall|other: FixThinObservation| #[trigger]
            C::observes(other) ==> other.observed_at.unix_nanos
                <= observation.observed_at.unix_nanos,
    ensures
        untimely::<C>(options, observation) <==> observation.observed_at.unix_nanos
            < options.started_at.unix_nanos || observation.observed_at.unix_nanos
            > options.deadline.unix_nanos,
{
}

/// A header announces a count exactly where it is twelve bytes: the signature, a version that is two
/// or three, and that count.
pub proof fn law_headers_are_twelve_bytes(source: Seq<u8>, count: int)
    requires
        crate::push_fix_thin::header_announces(source, count),
    ensures
        source.len() == 12,
        crate::push_pack_validation::announces(source, count),
{
}

/// A new count takes the place of the old one, and signature and version stay.
pub proof fn law_recounted_headers_keep_their_version(source: Seq<u8>, count: u32)
    requires
        source.len() == 12,
    ensures
        crate::push_fix_thin::recounted_header(source, count).len() == 12,
        crate::push_fix_thin::recounted_header(source, count).take(8) == source.take(8),
        crate::push_fix_thin::recounted_header(source, count).skip(8) == crate::bytes::be_bytes(
            count as int,
            4,
        ),
{
    crate::bytes::lemma_be_bytes_len(count as int, 4);
    let header = crate::push_fix_thin::recounted_header(source, count);
    assert(header.take(8) =~= source.take(8));
    assert(header.skip(8) =~= crate::bytes::be_bytes(count as int, 4));
}

/// A completed pack is its new header, the source's entries as they were, and what was added.
pub proof fn law_thickened_pack_is_the_source_and_more(
    source: Seq<u8>,
    body_end: int,
    count: u32,
    added: Seq<u8>,
)
    requires
        12 <= body_end <= source.len(),
    ensures
        ({
            let thick = crate::push_fix_thin::thickened(source, body_end, count, added);
            &&& thick.len() == body_end + added.len()
            &&& thick.take(8) == source.take(8)
            &&& thick.subrange(8, 12) == crate::bytes::be_bytes(count as int, 4)
            &&& thick.subrange(12, body_end) == source.subrange(12, body_end)
            &&& thick.skip(body_end) == added
        }),
{
    crate::bytes::lemma_be_bytes_len(count as int, 4);
    let thick = crate::push_fix_thin::thickened(source, body_end, count, added);
    assert(thick.take(8) =~= source.take(8));
    assert(thick.subrange(8, 12) =~= crate::bytes::be_bytes(count as int, 4));
    assert(thick.subrange(12, body_end) =~= source.subrange(12, body_end));
    assert(thick.skip(body_end) =~= added);
}

/// A rewrite is ready exactly where source, plan and target belong together and the source's rows
/// fill its body up to a trailer.
pub proof fn law_rewrites_begin_with_a_whole_source(
    plan: crate::push_fix_thin::FixThinPlan,
    validated: crate::push_pack_validation::ValidatedPushPack,
    source: crate::push_quarantine::QuarantineSnapshot,
    target: crate::push_quarantine::QuarantineSnapshot,
    target_fence: crate::push_quarantine::QuarantineFence,
    options: crate::push_fix_thin::FixThinOptions,
)
    ensures
        crate::push_fix_thin::rewrite_ready(plan, validated, source, target, target_fence, options)
            <==> (source.manifest is Some && crate::push_fix_thin::source_bound(
            validated,
            source,
            source.manifest->0,
        ) && source.manifest->0.hash_algo.spec_len() <= source.manifest->0.pack_bytes
            && crate::push_fix_thin::spans_tile(
            validated.index@,
            source.manifest->0.pack_bytes - source.manifest->0.hash_algo.spec_len(),
        ) && crate::push_fix_thin::plan_bound(plan, validated, source, options)
            && crate::push_fix_thin::target_bound(plan, source, target, target_fence)),
{
    if source.manifest is Some {
        let manifest = source.manifest->0;
        let bound = crate::push_fix_thin::source_bound(validated, source, manifest);
    }
}

/// A completed pack is sealed under a manifest of its own bytes and then attested, and nothing else
/// happens to its quarantine.
pub proof fn law_completed_pack_is_sealed_then_attested(
    before: Seq<crate::push_quarantine::QuarantineStep>,
    after: Seq<crate::push_quarantine::QuarantineStep>,
    fence: crate::push_quarantine::QuarantineFence,
    fixed: crate::push_fix_thin::FixedThinPack,
    algo: crate::object::HashAlgo,
    metadata_bytes: int,
)
    requires
        crate::push_fix_thin::sealed_and_attested(
            before,
            after,
            fence,
            fixed,
            algo,
            metadata_bytes,
        ),
    ensures
        after.len() == before.len() + 2,
        forall|i: int| 0 <= i < before.len() ==> #[trigger] after[i] == before[i],
        ({
            let sealing = after[before.len() as int];
            let attesting = after[before.len() as int + 1];
            &&& sealing is Sealed
            &&& attesting is Attested
            &&& sealing->Sealed_fence == fence
            &&& sealing->checksum == fixed.validated.attestation.pack_checksum
            &&& sealing->manifest.pack_checksum == Some(fixed.validated.attestation.pack_checksum)
            &&& sealing->manifest.pack_bytes == fixed.report.output_pack_bytes
            &&& sealing->manifest.object_count == fixed.validated.attestation.object_count
            &&& sealing->manifest.hash_algo == algo
            &&& !sealing->manifest.self_contained
            &&& sealing->manifest.index_checksum is None
            &&& attesting->Attested_fence == sealing->sealed
            &&& attesting->attestation == fixed.validated.attestation
            &&& attesting->attested == fixed.validated.fence
        }),
{
}

/// Planning is accounted by the same amount for every object, and by the same amount for every base.
pub proof fn law_working_set_is_by_object_and_base(objects: int, bases: int)
    ensures
        crate::push_fix_thin::working_set(0, 0) == 0,
        crate::push_fix_thin::working_set(objects + 1, bases) - crate::push_fix_thin::working_set(
            objects,
            bases,
        ) == vstd::layout::size_of::<crate::object::ObjectId>() + 128,
        crate::push_fix_thin::working_set(objects, bases + 1) - crate::push_fix_thin::working_set(
            objects,
            bases,
        ) == 5 * vstd::layout::size_of::<crate::object::ObjectId>() + 384
            + 2 * vstd::layout::size_of::<crate::push_fix_thin::AuthorizedThinBase>()
            + vstd::layout::size_of::<crate::push_fix_thin::FixThinBase>(),
{
    let oid = vstd::layout::size_of::<crate::object::ObjectId>() as int;
    let hashed = oid + 128;
    let base = hashed * 3 + oid * 2 + vstd::layout::size_of::<
        crate::push_fix_thin::AuthorizedThinBase,
    >() * 2 + vstd::layout::size_of::<crate::push_fix_thin::FixThinBase>();
    assert((objects + 1) * hashed == objects * hashed + hashed) by (nonlinear_arith);
    assert((bases + 1) * base == bases * base + base) by (nonlinear_arith);
    assert(0 * hashed == 0 && 0 * base == 0) by (nonlinear_arith);
}

/// Bases are in order exactly where each has a version and comes before the next.
pub proof fn law_planned_bases_are_in_order(bases: Seq<crate::push_fix_thin::FixThinBase>, k: int)
    requires
        crate::push_fix_thin::bases_ordered(bases),
        0 <= k < bases.len(),
    ensures
        bases[k].authorization_version > 0,
        k + 1 < bases.len() ==> bases[k].oid.spec_before(bases[k + 1].oid),
{
    assert(crate::push_fix_thin::base_ordered(bases, k));
}

/// A packed base is its header and a stream of as many bytes as it declares, and they hash to its
/// identity.
pub proof fn law_packed_base_reads_back(
    base: crate::push_fix_thin::FixThinBase,
    header: Seq<u8>,
    stream: Seq<u8>,
    payload: Seq<u8>,
)
    requires
        header == crate::varint::entry_header(base.kind.code(), base.payload_bytes as nat),
        crate::zlib::zlib_decoded(stream) == Some(payload),
    ensures
        crate::push_fix_thin::base_entry(base, header + stream) <==> (payload.len()
            == base.payload_bytes && crate::digest::canonical_id(
            base.oid.spec_algo(),
            base.kind,
            payload,
        ) == base.oid),
{
    let entry = header + stream;
    assert(entry.take(header.len() as int) =~= header);
    assert(entry.skip(header.len() as int) =~= stream);
}

/// In a fingerprint every kind has a number of its own, and every field its length before it.
pub proof fn law_fingerprint_fields_are_framed(
    left: crate::object::ObjectKind,
    right: crate::object::ObjectKind,
    bytes: Seq<u8>,
)
    ensures
        crate::push_fix_thin::fingerprint_code(left) == crate::push_fix_thin::fingerprint_code(right)
            ==> left == right,
        1 <= crate::push_fix_thin::fingerprint_code(left) <= 4,
        crate::push_fix_thin::framed(bytes).len() == 8 + bytes.len(),
        crate::push_fix_thin::framed(bytes).take(8) == crate::bytes::be_bytes(
            bytes.len() as int,
            8,
        ),
        crate::push_fix_thin::framed(bytes).skip(8) == bytes,
{
    crate::bytes::lemma_be_bytes_len(bytes.len() as int, 8);
    let framed = crate::push_fix_thin::framed(bytes);
    assert(framed.take(8) =~= crate::bytes::be_bytes(bytes.len() as int, 8));
    assert(framed.skip(8) =~= bytes);
}

/// A completed pack is its source with a new count, the packed bases behind it and the digest of
/// all of that.
pub proof fn law_completed_pack_ends_in_its_digest(
    source: Seq<u8>,
    target: Seq<u8>,
    rows: Seq<crate::push_pack_validation::PushPackIndexRow>,
    bases: Seq<crate::push_fix_thin::FixThinBase>,
    algo: crate::object::HashAlgo,
)
    requires
        crate::push_fix_thin::thickened_from(source, target, rows, bases, algo),
        rows.len() + bases.len() <= u32::MAX,
    ensures
        ({
            let end = crate::push_fix_thin::rows_end(rows, rows.len() as int);
            let packed = target.len() - algo.spec_len();
            &&& 12 <= end <= source.len()
            &&& end <= packed
            &&& target.take(8) == source.take(8)
            &&& target.subrange(8, 12) == crate::bytes::be_bytes(
                (rows.len() + bases.len()) as int,
                4,
            )
            &&& target.subrange(12, end) == source.subrange(12, end)
            &&& crate::push_fix_thin::base_entries(bases, target.subrange(end, packed))
            &&& target.skip(packed) == crate::digest::digest_of(algo, target.take(packed))
        }),
{
    let end = crate::push_fix_thin::rows_end(rows, rows.len() as int);
    let packed = target.len() - algo.spec_len();
    let count = (rows.len() + bases.len()) as u32;
    let added = target.subrange(end, packed);
    law_thickened_pack_is_the_source_and_more(source, end, count, added);
    let body = target.take(packed);
    assert(target.take(8) =~= body.take(8));
    assert(target.subrange(8, 12) =~= body.subrange(8, 12));
    assert(target.subrange(12, end) =~= body.subrange(12, end));
}

/// A replacement is what it was sealed as exactly where it needs nothing from outside and has the
/// sealed count and checksum.
pub proof fn law_replacement_is_what_was_sealed<X: crate::push_pack_validation::StructuralParser>(
    validated: crate::push_pack_validation::ValidatedPushPack,
    content: Seq<u8>,
    limits: crate::push_metrics::ReceivePackLimits,
    count: int,
    step: crate::push_quarantine::QuarantineStep,
)
    requires
        crate::push_pack_validation::validated_from::<X>(validated, content, limits),
    ensures
        !crate::push_fix_thin::replacement_differs::<X>(validated, content, limits, count, step)
            <==> (validated.attestation.self_contained && validated.attestation.object_count
            == count && step is Sealed && step->checksum == validated.attestation.pack_checksum),
{
}

} // verus!
