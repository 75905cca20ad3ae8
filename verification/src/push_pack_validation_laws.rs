//! What holds of every push that is validated or refused.

use crate::digest::{canonical_id, crc32_of};
use crate::object::{HashAlgo, ObjectId, ObjectKind};
use crate::push_metrics::ReceivePackLimits;
use crate::push_pack_validation::{
    content_refused, count_direct, count_kind, count_ofs, count_outside, deepest, delta_allowed,
    depth_of, direct_refused, entries_refused, entry_kept, entry_placed, entry_refused,
    entry_resolved, expansion_of, header_at, index_of, kept_for, kind_of_code, next_offset,
    object_refused, pack_refused, ratio_of, reached, resolution_refused, resolved_against, row_of,
    sealed_counts, stream_refused, structural_fault, structure_kept, structure_valid, sum_declared,
    validated_from, widest, AuthorizedPushBase, AuthorizedPushBaseError, AuthorizedPushBaseProvider,
    EntryDependency, ParsedEntry, PushPackEntryKind, PushPackIndexRow, PushPackValidationError,
    PushPackValidationObservation, PushPackValidationOptions, PushStructuralMetadata,
    PushValidationSummary, StructuralParser, ValidatedPushPack, ValidationCheckpoint,
};
use crate::push_quarantine::{
    QuarantineFence, QuarantineManifest, QuarantineSnapshot, QuarantineState,
};
use crate::zlib::zlib_decoded;
use vstd::prelude::*;

verus! {

/// Whether the parser is to blame: it made nothing of the payload, made something of another kind,
/// or read an identity that is zero or of another algorithm.
pub open spec fn fault_in(
    parsed: Option<PushStructuralMetadata>,
    kind: ObjectKind,
    algo: HashAlgo,
) -> bool {
    match parsed {
        None => true,
        Some(PushStructuralMetadata::Commit(commit)) => {
            ||| kind != ObjectKind::Commit
            ||| commit.tree.spec_algo() != algo
            ||| commit.tree.spec_is_zero()
            ||| exists|i: int|
                0 <= i < commit.parents@.len() && ((#[trigger] commit.parents@[i]).spec_algo()
                    != algo || commit.parents@[i].spec_is_zero())
        },
        Some(PushStructuralMetadata::Tree(entries)) => {
            ||| kind != ObjectKind::Tree
            ||| exists|i: int|
                0 <= i < entries@.len() && ((#[trigger] entries@[i]).oid.spec_algo() != algo
                    || entries@[i].oid.spec_is_zero())
        },
        Some(PushStructuralMetadata::Tag(tag)) => {
            ||| kind != ObjectKind::Tag
            ||| tag.object.spec_algo() != algo
            ||| tag.object.spec_is_zero()
            ||| tag.object_type is None
        },
    }
}

/// A commit, tree or tag is valid exactly where nothing is wrong with its kind or with any one
/// identity that it names, however many those are: a commit without parents and an empty tree are.
pub proof fn law_structure_is_valid_without_a_fault(
    metadata: PushStructuralMetadata,
    kind: ObjectKind,
    algo: HashAlgo,
)
    ensures
        structure_valid(metadata, kind, algo) == !fault_in(Some(metadata), kind, algo),
{
}

/// A root commit with a tree of the algorithm is valid, and so is an empty tree.
pub proof fn law_roots_are_valid(metadata: PushStructuralMetadata, algo: HashAlgo)
    ensures
        metadata matches PushStructuralMetadata::Commit(commit) ==> commit.parents@.len() == 0
            && commit.tree.spec_algo() == algo && !commit.tree.spec_is_zero() ==> structure_valid(
            metadata,
            ObjectKind::Commit,
            algo,
        ),
        metadata matches PushStructuralMetadata::Tree(entries) ==> entries@.len() == 0
            ==> structure_valid(metadata, ObjectKind::Tree, algo),
{
}

/// Retaining a parsed object reports a fault only where there is one, and reports every fault of an
/// object that fits the memory.
pub proof fn law_structural_report_is_just(
    kind: ObjectKind,
    size: int,
    parsed: Option<PushStructuralMetadata>,
    algo: HashAlgo,
    retained: u64,
    maximum: u64,
    summary: PushValidationSummary,
)
    requires
        0 <= size <= u64::MAX,
    ensures
        ({
            let fault = structural_fault(kind, size, parsed, algo, retained, maximum, summary);
            let room = retained + 8 * size + 256 <= maximum;
            &&& fault == Some(PushPackValidationError::ObjectSize) <==> !room
            &&& fault == Some(PushPackValidationError::InvalidStructuralObject) <==> room
                && fault_in(parsed, kind, algo)
            &&& fault is None ==> room && !fault_in(parsed, kind, algo)
        }),
{
}

/// A whole pack is refused for its structure only where the parser was given a payload other than a
/// blob and what came back has a fault.
pub proof fn law_structural_refusal_names_a_fault<
    B: AuthorizedPushBaseProvider,
    S: StructuralParser,
>(snapshot: QuarantineSnapshot, pack: Seq<u8>, options: PushPackValidationOptions)
    requires
        pack_refused::<B, S>(
            snapshot,
            pack,
            options,
            PushPackValidationError::InvalidStructuralObject,
        ),
    ensures
        exists|kind: ObjectKind, payload: Seq<u8>, parsed: Option<PushStructuralMetadata>|
            kind != ObjectKind::Blob && #[trigger] S::parses(
                kind,
                payload,
                snapshot.manifest->0.hash_algo,
                parsed,
            ) && fault_in(parsed, kind, snapshot.manifest->0.hash_algo),
{
    reveal(entry_refused);
    reveal(content_refused);
    reveal(stream_refused);
    reveal(object_refused);
    reveal(entries_refused);
    reveal(resolution_refused);
    let error = PushPackValidationError::InvalidStructuralObject;
    let manifest = snapshot.manifest->0;
    let algo = manifest.hash_algo;
    let end = manifest.pack_bytes - algo.spec_len();
    let (entries, payloads) = choose|entries: Seq<ParsedEntry>, payloads: Seq<Seq<u8>>| #[trigger]
        reached(pack, algo, end, entries, payloads) && {
            ||| entry_refused::<S>(pack, algo, end, options.limits, entries, error)
            ||| entries_refused::<B, S>(
                snapshot.tenant@,
                snapshot.repository@,
                pack,
                algo,
                end,
                options.limits,
                entries,
                payloads,
                error,
            )
            ||| error == PushPackValidationError::InvalidPack && entries.len()
                == manifest.object_count && next_offset(entries, entries.len() as int) != end
        };
    assert(exists|kind: ObjectKind, payload: Seq<u8>| #[trigger]
        object_refused::<S>(kind, payload, algo, options.limits, entries, error)) by {
        if entry_refused::<S>(pack, algo, end, options.limits, entries, error) {
            let start = next_offset(entries, entries.len() as int);
            let (code, size) = choose|code: u8, size: u64| #[trigger]
                header_at(pack, start, code, size) && content_refused::<S>(
                    pack,
                    algo,
                    end,
                    options.limits,
                    entries,
                    start,
                    code,
                    size,
                    error,
                );
            let (offset, stop) = choose|offset: int, stop: int|
                start < offset && #[trigger] direct_refused::<S>(
                    pack,
                    algo,
                    options.limits,
                    entries,
                    code,
                    offset,
                    stop,
                    error,
                );
            assert(direct_refused::<S>(
                pack,
                algo,
                options.limits,
                entries,
                code,
                offset,
                stop,
                error,
            ));
            assert(object_refused::<S>(
                kind_of_code(code)->0,
                zlib_decoded(pack.subrange(offset, stop))->0,
                algo,
                options.limits,
                entries,
                error,
            ));
        } else {
            let (i, kind, base, depth) = choose|
                i: int,
                kind: ObjectKind,
                base: Seq<u8>,
                depth: u32,
            | #[trigger]
                resolution_refused::<S>(
                    pack,
                    algo,
                    options.limits,
                    entries,
                    payloads,
                    i,
                    kind,
                    base,
                    depth,
                    error,
                );
            assert(resolution_refused::<S>(
                pack,
                algo,
                options.limits,
                entries,
                payloads,
                i,
                kind,
                base,
                depth,
                error,
            ));
        }
    }
    let (kind, payload) = choose|kind: ObjectKind, payload: Seq<u8>| #[trigger]
        object_refused::<S>(kind, payload, algo, options.limits, entries, error);
    let parsed = choose|parsed: Option<PushStructuralMetadata>| #[trigger]
        S::parses(kind, payload, algo, parsed) && (parsed is None || !structure_valid(
            parsed->0,
            kind,
            algo,
        ));
    assert(S::parses(kind, payload, algo, parsed));
    assert(fault_in(parsed, kind, algo));
}

/// Where every value that the parser can make of a payload is without fault, no pack is refused for
/// its structure: in particular not for a commit that has no parents.
pub proof fn law_sound_structure_is_never_refused<
    B: AuthorizedPushBaseProvider,
    S: StructuralParser,
>(snapshot: QuarantineSnapshot, pack: Seq<u8>, options: PushPackValidationOptions)
    requires
        forall|kind: ObjectKind, payload: Seq<u8>, parsed: Option<PushStructuralMetadata>|
            kind != ObjectKind::Blob && #[trigger] S::parses(
                kind,
                payload,
                snapshot.manifest->0.hash_algo,
                parsed,
            ) ==> match parsed {
                Some(PushStructuralMetadata::Commit(commit)) => kind == ObjectKind::Commit
                    && commit.tree.spec_algo() == snapshot.manifest->0.hash_algo
                    && !commit.tree.spec_is_zero() && forall|i: int|
                    0 <= i < commit.parents@.len() ==> (
                    #[trigger] commit.parents@[i]).spec_algo() == snapshot.manifest->0.hash_algo
                        && !commit.parents@[i].spec_is_zero(),
                Some(PushStructuralMetadata::Tree(entries)) => kind == ObjectKind::Tree
                    && forall|i: int|
                    0 <= i < entries@.len() ==> (#[trigger] entries@[i]).oid.spec_algo()
                        == snapshot.manifest->0.hash_algo && !entries@[i].oid.spec_is_zero(),
                Some(PushStructuralMetadata::Tag(tag)) => kind == ObjectKind::Tag
                    && tag.object.spec_algo() == snapshot.manifest->0.hash_algo
                    && !tag.object.spec_is_zero() && tag.object_type is Some,
                None => false,
            },
    ensures
        !pack_refused::<B, S>(
            snapshot,
            pack,
            options,
            PushPackValidationError::InvalidStructuralObject,
        ),
{
    if pack_refused::<B, S>(
        snapshot,
        pack,
        options,
        PushPackValidationError::InvalidStructuralObject,
    ) {
        law_structural_refusal_names_a_fault::<B, S>(snapshot, pack, options);
        let algo = snapshot.manifest->0.hash_algo;
        let (kind, payload, parsed) = choose|
            kind: ObjectKind,
            payload: Seq<u8>,
            parsed: Option<PushStructuralMetadata>,
        |
            kind != ObjectKind::Blob && #[trigger] S::parses(kind, payload, algo, parsed)
                && fault_in(parsed, kind, algo);
        assert(S::parses(kind, payload, algo, parsed));
    }
}

/// The rows of one kind.
pub open spec fn of_kind(kind: ObjectKind) -> spec_fn(PushPackIndexRow) -> bool {
    |row: PushPackIndexRow| row.kind == kind
}

/// The rows that stand for themselves.
pub open spec fn standing_alone() -> spec_fn(PushPackIndexRow) -> bool {
    |row: PushPackIndexRow| row.representation is Direct
}

/// The rows whose base is named by its offset.
pub open spec fn based_by_offset() -> spec_fn(PushPackIndexRow) -> bool {
    |row: PushPackIndexRow| row.representation is OfsDelta
}

/// The rows whose base is named by its identity.
pub open spec fn based_by_identity() -> spec_fn(PushPackIndexRow) -> bool {
    |row: PushPackIndexRow| row.representation is RefDelta
}

/// The rows whose base is not in the pack.
pub open spec fn based_outside() -> spec_fn(PushPackIndexRow) -> bool {
    |row: PushPackIndexRow| row.representation matches PushPackEntryKind::RefDelta { external, .. } && external
}

/// What the rows declare together.
pub open spec fn declared_total(rows: Seq<PushPackIndexRow>) -> int
    decreases rows.len(),
{
    if rows.len() == 0 {
        0
    } else {
        declared_total(rows.drop_last()) + rows.last().declared_size
    }
}

/// The rows are those of the entries.
spec fn rows_match(rows: Seq<PushPackIndexRow>, entries: Seq<ParsedEntry>) -> bool {
    &&& rows.len() == entries.len()
    &&& forall|i: int|
        0 <= i < rows.len() ==> entries[i].resolved is Some && (#[trigger] rows[i]).kind
            == entries[i].resolved->0.kind && rows[i].declared_size == entries[i].declared_size
            && rows[i].delta_depth == entries[i].resolved->0.depth && (rows[i].representation
            is Direct <==> entries[i].dependency is Direct) && (rows[i].representation is OfsDelta
            <==> entries[i].dependency is Ofs) && (rows[i].representation is RefDelta
            <==> entries[i].dependency is Ref) && (rows[i].representation matches
            PushPackEntryKind::RefDelta { external, .. } ==> external
            == entries[i].resolved->0.external) && (!(entries[i].dependency is Ref)
            ==> !entries[i].resolved->0.external)
}

proof fn lemma_tallies(rows: Seq<PushPackIndexRow>, entries: Seq<ParsedEntry>)
    requires
        rows_match(rows, entries),
    ensures
        forall|kind: ObjectKind| #[trigger]
            count_kind(entries, kind) == rows.filter(of_kind(kind)).len(),
        count_direct(entries) == rows.filter(standing_alone()).len(),
        count_ofs(entries) == rows.filter(based_by_offset()).len(),
        count_outside(entries) == rows.filter(based_outside()).len(),
        rows.len() == rows.filter(standing_alone()).len() + rows.filter(based_by_offset()).len()
            + rows.filter(based_by_identity()).len(),
        sum_declared(entries) == declared_total(rows),
    decreases rows.len(),
{
    reveal(Seq::filter);
    if rows.len() > 0 {
        assert forall|i: int| 0 <= i < rows.drop_last().len() implies rows.drop_last()[i]
            == #[trigger] rows[i] && entries.drop_last()[i] == entries[i] by {}
        assert(rows_match(rows.drop_last(), entries.drop_last()));
        lemma_tallies(rows.drop_last(), entries.drop_last());
        let last = rows[rows.len() - 1];
        assert(last == rows.last());
        assert forall|kind: ObjectKind| #[trigger]
            count_kind(entries, kind) == rows.filter(of_kind(kind)).len() by {
            assert(count_kind(entries.drop_last(), kind) == rows.drop_last().filter(
                of_kind(kind),
            ).len());
        }
    }
}

/// The counts of a validated pack are those of its rows, told apart by what each row says of itself.
pub proof fn law_counts_are_those_of_the_rows<S: StructuralParser>(
    validated: ValidatedPushPack,
    pack: Seq<u8>,
    limits: ReceivePackLimits,
)
    requires
        validated_from::<S>(validated, pack, limits),
    ensures
        ({
            let rows = validated.index@;
            let summary = validated.summary;
            &&& summary.objects == rows.len()
            &&& summary.commits == rows.filter(of_kind(ObjectKind::Commit)).len()
            &&& summary.trees == rows.filter(of_kind(ObjectKind::Tree)).len()
            &&& summary.blobs == rows.filter(of_kind(ObjectKind::Blob)).len()
            &&& summary.tags == rows.filter(of_kind(ObjectKind::Tag)).len()
            &&& summary.direct_objects == rows.filter(standing_alone()).len()
            &&& summary.ofs_deltas == rows.filter(based_by_offset()).len()
            &&& summary.ref_deltas == rows.filter(based_by_identity()).len()
            &&& summary.external_bases == rows.filter(based_outside()).len()
            &&& summary.inflated_bytes == declared_total(rows)
            &&& validated.structural_objects@.len() == summary.commits + summary.trees
                + summary.tags
        }),
{
    let rows = validated.index@;
    let algo = validated.attestation.pack_checksum.spec_algo();
    let (body_end, entries, payloads) = validated_entries::<S>(validated, pack, limits);
    lemma_rows_match(pack, algo, body_end, rows, entries, payloads);
    lemma_tallies(rows, entries);
}

/// The entries behind a validated pack.
proof fn validated_entries<S: StructuralParser>(
    validated: ValidatedPushPack,
    pack: Seq<u8>,
    limits: ReceivePackLimits,
) -> (found: (int, Seq<ParsedEntry>, Seq<Seq<u8>>))
    requires
        validated_from::<S>(validated, pack, limits),
    ensures
        ({
            let algo = validated.attestation.pack_checksum.spec_algo();
            &&& index_of(pack, algo, found.0, validated.index@, found.1, found.2)
            &&& pack.subrange(found.0, found.0 + algo.spec_len())
                == validated.attestation.pack_checksum@
            &&& sealed_counts(validated.summary, found.1)
            &&& structure_kept::<S>(validated.structural_objects@, found.1, found.2, algo)
        }),
{
    let algo = validated.attestation.pack_checksum.spec_algo();
    choose|body_end: int, entries: Seq<ParsedEntry>, payloads: Seq<Seq<u8>>| #[trigger]
        index_of(pack, algo, body_end, validated.index@, entries, payloads) && pack.subrange(
            body_end,
            body_end + algo.spec_len(),
        ) == validated.attestation.pack_checksum@ && sealed_counts(validated.summary, entries)
            && structure_kept::<S>(validated.structural_objects@, entries, payloads, algo)
}

proof fn lemma_rows_match(
    pack: Seq<u8>,
    algo: HashAlgo,
    body_end: int,
    rows: Seq<PushPackIndexRow>,
    entries: Seq<ParsedEntry>,
    payloads: Seq<Seq<u8>>,
)
    requires
        index_of(pack, algo, body_end, rows, entries, payloads),
    ensures
        rows_match(rows, entries),
{
    assert forall|i: int| 0 <= i < rows.len() implies entries[i].resolved is Some && (
    #[trigger] rows[i]) == row_of(entries, i) && (!(entries[i].dependency is Ref)
        ==> !entries[i].resolved->0.external) by {
        assert(entry_resolved(pack, algo, entries, payloads, i));
    }
}

/// The deepest chain and the widest expansion of a validated pack are those of its rows.
pub proof fn law_extremes_are_those_of_the_rows<S: StructuralParser>(
    validated: ValidatedPushPack,
    pack: Seq<u8>,
    limits: ReceivePackLimits,
)
    requires
        validated_from::<S>(validated, pack, limits),
    ensures
        forall|i: int|
            0 <= i < validated.index@.len() ==> (#[trigger] validated.index@[i]).delta_depth
                <= validated.summary.maximum_delta_depth,
        validated.summary.maximum_delta_depth == 0 || exists|i: int|
            0 <= i < validated.index@.len() && (#[trigger] validated.index@[i]).delta_depth
                == validated.summary.maximum_delta_depth,
        forall|i: int|
            0 <= i < validated.index@.len() && !((#[trigger] validated.index@[i]).representation
                is Direct) ==> validated.index@[i].resolved_size
                <= validated.summary.maximum_delta_expansion_ratio * if validated.index@[i].declared_size > 0 {
                validated.index@[i].declared_size as int
            } else {
                1
            },
        forall|i: int|
            0 <= i < validated.index@.len() ==> (#[trigger] validated.index@[i]).delta_depth
                <= limits.max_delta_depth && validated.index@[i].resolved_size
                <= limits.max_object_bytes,
{
    let rows = validated.index@;
    let algo = validated.attestation.pack_checksum.spec_algo();
    let (body_end, entries, payloads) = choose|
        body_end: int,
        entries: Seq<ParsedEntry>,
        payloads: Seq<Seq<u8>>,
    | #[trigger]
        index_of(pack, algo, body_end, rows, entries, payloads) && pack.subrange(
            body_end,
            body_end + algo.spec_len(),
        ) == validated.attestation.pack_checksum@ && sealed_counts(validated.summary, entries)
            && structure_kept::<S>(validated.structural_objects@, entries, payloads, algo)
            && crate::push_pack_validation::entries_within(entries, limits);
    assert forall|i: int| 0 <= i < rows.len() implies (#[trigger] rows[i]) == row_of(entries, i)
        && entries[i].resolved is Some && rows[i].delta_depth == depth_of(entries[i]) by {
        assert(entries[i].resolved is Some);
    }
    let depth = validated.summary.maximum_delta_depth as int;
    assert(deepest(depth, entries));
    if depth != 0 {
        let i = choose|i: int| 0 <= i < entries.len() && depth_of(#[trigger] entries[i]) == depth;
        assert(rows[i].delta_depth == depth);
    }
    let ratio = validated.summary.maximum_delta_expansion_ratio as int;
    assert(widest(ratio, entries));
    assert forall|i: int|
        0 <= i < rows.len() && !((#[trigger] rows[i]).representation is Direct) implies rows[i].resolved_size
        <= ratio * if rows[i].declared_size > 0 {
        rows[i].declared_size as int
    } else {
        1
    } by {
        assert(ratio_of(entries[i]) <= ratio);
        let size = rows[i].resolved_size as int;
        let declared = rows[i].declared_size as int;
        assert(ratio_of(entries[i]) == expansion_of(size, declared));
        if declared > 1 {
            law_expansion_is_the_least_ratio(size, declared);
            let least = expansion_of(size, declared);
            assert(least * declared <= ratio * declared) by (nonlinear_arith)
                requires
                    least <= ratio,
                    declared > 1,
            ;
        } else {
            assert(ratio * 1 == ratio);
        }
    }
}

/// The expansion of a delta is the least whole number of times that its instructions must be counted
/// to make up the result.
pub proof fn law_expansion_is_the_least_ratio(result_size: int, instruction_size: int)
    requires
        result_size >= 0,
        instruction_size >= 1,
    ensures
        expansion_of(result_size, instruction_size) * instruction_size >= result_size,
        forall|ratio: int|
            ratio >= 0 && #[trigger] (ratio * instruction_size) >= result_size ==> expansion_of(
                result_size,
                instruction_size,
            ) <= ratio,
{
    let least = expansion_of(result_size, instruction_size);
    if instruction_size == 1 {
        assert(least * 1 == result_size);
        assert forall|ratio: int|
            ratio >= 0 && #[trigger] (ratio * instruction_size) >= result_size implies least
            <= ratio by {
            assert(ratio * 1 == ratio);
        }
    } else {
        let sum = result_size + instruction_size - 1;
        assert(least == sum / instruction_size);
        vstd::arithmetic::div_mod::lemma_fundamental_div_mod(sum, instruction_size);
        assert(0 <= sum % instruction_size < instruction_size);
        assert(least * instruction_size == instruction_size * least) by (nonlinear_arith);
        assert forall|ratio: int|
            ratio >= 0 && #[trigger] (ratio * instruction_size) >= result_size implies least
            <= ratio by {
            if least > ratio {
                assert((ratio + 1) * instruction_size <= least * instruction_size)
                    by (nonlinear_arith)
                    requires
                        ratio + 1 <= least,
                        instruction_size > 1,
                ;
                assert((ratio + 1) * instruction_size == ratio * instruction_size
                    + instruction_size) by (nonlinear_arith);
            }
        }
    }
}

/// A delta is allowed exactly where its base has the size that it names and every bound is kept; no
/// bound but these refuses it.
pub proof fn law_delta_is_allowed_within_bounds(
    limits: ReceivePackLimits,
    base_kind: ObjectKind,
    base_size: u64,
    base_depth: u32,
    source_size: u64,
    result_size: u64,
    instruction_size: u64,
    cache_bytes: u64,
    ratio: u64,
)
    requires
        instruction_size >= 1,
    ensures
        source_size == base_size && result_size <= limits.max_object_bytes && (base_kind
            == ObjectKind::Blob || result_size <= limits.max_metadata_memory_bytes) && base_size
            + instruction_size + result_size <= limits.bytes_in_flight && cache_bytes + result_size
            <= limits.max_delta_base_memory_bytes && ratio <= limits.max_delta_expansion_ratio
            && result_size <= ratio * instruction_size && base_depth < limits.max_delta_depth
            ==> delta_allowed(
            limits,
            base_kind,
            base_size,
            base_depth,
            source_size,
            result_size,
            instruction_size,
            cache_bytes,
        ),
        delta_allowed(
            limits,
            base_kind,
            base_size,
            base_depth,
            source_size,
            result_size,
            instruction_size,
            cache_bytes,
        ) ==> {
            &&& source_size == base_size
            &&& result_size <= limits.max_object_bytes
            &&& base_kind != ObjectKind::Blob ==> result_size <= limits.max_metadata_memory_bytes
            &&& base_size + instruction_size + result_size <= limits.bytes_in_flight
            &&& cache_bytes + result_size <= limits.max_delta_base_memory_bytes
            &&& result_size <= limits.max_delta_expansion_ratio * instruction_size
            &&& base_depth + 1 <= limits.max_delta_depth
        },
{
    law_expansion_is_the_least_ratio(result_size as int, instruction_size as int);
    let least = expansion_of(result_size as int, instruction_size as int);
    if result_size <= ratio * instruction_size {
        assert(least <= ratio);
    }
    if least <= limits.max_delta_expansion_ratio {
        assert(least * instruction_size <= limits.max_delta_expansion_ratio * instruction_size)
            by (nonlinear_arith)
            requires
                least <= limits.max_delta_expansion_ratio,
                instruction_size >= 1,
        ;
    }
}

/// Where row `i` lies, and what its bytes are.
proof fn lemma_row_placed(
    pack: Seq<u8>,
    algo: HashAlgo,
    body_end: int,
    rows: Seq<PushPackIndexRow>,
    entries: Seq<ParsedEntry>,
    payloads: Seq<Seq<u8>>,
    i: int,
)
    requires
        pack.len() <= u64::MAX,
        index_of(pack, algo, body_end, rows, entries, payloads),
        0 <= i < rows.len(),
    ensures
        ({
            let row = rows[i];
            let stop = row.entry.offset + row.entry.length;
            &&& row == row_of(entries, i)
            &&& entries[i].resolved is Some
            &&& row.entry.offset == next_offset(entries, i)
            &&& stop == next_offset(entries, i + 1)
            &&& row.ordinal == i
            &&& row.header.offset == row.entry.offset
            &&& row.base_header.offset == row.header.offset + row.header.length
            &&& row.compressed.offset == row.base_header.offset + row.base_header.length
            &&& row.compressed.offset + row.compressed.length == stop
            &&& row.crc32 == crc32_of(pack.subrange(row.entry.offset as int, stop))
            &&& zlib_decoded(pack.subrange(row.compressed.offset as int, stop)) is Some
            &&& zlib_decoded(pack.subrange(row.compressed.offset as int, stop))->0.len()
                == row.declared_size
            &&& entries[i].inflated(pack) == zlib_decoded(
                pack.subrange(row.compressed.offset as int, stop),
            )->0
        }),
{
    assert(rows[i] == row_of(entries, i));
    assert(entries[i].resolved is Some);
    assert(entry_placed(pack, algo, body_end, entries, i));
    let entry = entries[i];
    assert(entry.shaped(pack, algo, body_end));
    assert(entry.compressed.end() - entry.entry_offset <= u64::MAX);
    assert(entry.span().length == entry.compressed.end() - entry.entry_offset);
}

/// A pack starts with its signature; its first row lies behind the twelve bytes of the header, and
/// the checksum behind the last one.
pub proof fn law_rows_fill_the_body<S: StructuralParser>(
    validated: ValidatedPushPack,
    pack: Seq<u8>,
    limits: ReceivePackLimits,
)
    requires
        pack.len() <= u64::MAX,
        validated_from::<S>(validated, pack, limits),
    ensures
        ({
            let rows = validated.index@;
            let algo = validated.attestation.pack_checksum.spec_algo();
            let n = rows.len() as int;
            let end: int = if n == 0 {
                12
            } else {
                rows[n - 1].entry.offset + rows[n - 1].entry.length
            };
            &&& pack.subrange(0, 4) == seq![80u8, 65u8, 67u8, 75u8]
            &&& pack.subrange(end, end + algo.spec_len())
                == validated.attestation.pack_checksum@
            &&& n > 0 ==> rows[0].entry.offset == 12
        }),
{
    let rows = validated.index@;
    let algo = validated.attestation.pack_checksum.spec_algo();
    let (body_end, entries, payloads) = validated_entries::<S>(validated, pack, limits);
    if rows.len() > 0 {
        lemma_row_placed(pack, algo, body_end, rows, entries, payloads, 0);
        lemma_row_placed(pack, algo, body_end, rows, entries, payloads, rows.len() - 1);
    }
}

/// Rows lie one after the other with nothing between them, and no two have the same identity.
pub proof fn law_rows_follow_one_another<S: StructuralParser>(
    validated: ValidatedPushPack,
    pack: Seq<u8>,
    limits: ReceivePackLimits,
    i: int,
    j: int,
)
    requires
        pack.len() <= u64::MAX,
        validated_from::<S>(validated, pack, limits),
        0 <= i < j < validated.index@.len(),
    ensures
        validated.index@[j].entry.offset == validated.index@[j - 1].entry.offset
            + validated.index@[j - 1].entry.length,
        validated.index@[i].oid != validated.index@[j].oid,
{
    let rows = validated.index@;
    let algo = validated.attestation.pack_checksum.spec_algo();
    let (body_end, entries, payloads) = validated_entries::<S>(validated, pack, limits);
    lemma_row_placed(pack, algo, body_end, rows, entries, payloads, j);
    lemma_row_placed(pack, algo, body_end, rows, entries, payloads, j - 1);
}

/// A row is made of its header, its base and its stream, in this order and with nothing between
/// them; its checksum covers all of it, and its stream inflates to the declared size.
pub proof fn law_rows_are_made_of_their_spans<S: StructuralParser>(
    validated: ValidatedPushPack,
    pack: Seq<u8>,
    limits: ReceivePackLimits,
    i: int,
)
    requires
        pack.len() <= u64::MAX,
        validated_from::<S>(validated, pack, limits),
        0 <= i < validated.index@.len(),
    ensures
        ({
            let row = validated.index@[i];
            let stop = row.entry.offset + row.entry.length;
            &&& row.ordinal == i
            &&& row.header.offset == row.entry.offset
            &&& row.base_header.offset == row.header.offset + row.header.length
            &&& row.compressed.offset == row.base_header.offset + row.base_header.length
            &&& row.compressed.offset + row.compressed.length == stop
            &&& row.crc32 == crc32_of(pack.subrange(row.entry.offset as int, stop))
            &&& zlib_decoded(pack.subrange(row.compressed.offset as int, stop)) is Some
            &&& zlib_decoded(pack.subrange(row.compressed.offset as int, stop))->0.len()
                == row.declared_size
        }),
{
    let algo = validated.attestation.pack_checksum.spec_algo();
    let (body_end, entries, payloads) = validated_entries::<S>(validated, pack, limits);
    lemma_row_placed(pack, algo, body_end, validated.index@, entries, payloads, i);
}

/// The identity of a row that stands for itself is the digest of what its stream inflates to; the
/// base of a delta is another row of the same kind, one step less deep and earlier if it is named
/// by offset, or comes from outside where the row says so.
#[verifier::rlimit(40)]
pub proof fn law_rows_say_what_they_are_made_of<S: StructuralParser>(
    validated: ValidatedPushPack,
    pack: Seq<u8>,
    limits: ReceivePackLimits,
    i: int,
)
    requires
        pack.len() <= u64::MAX,
        validated_from::<S>(validated, pack, limits),
        0 <= i < validated.index@.len(),
    ensures
        ({
            let rows = validated.index@;
            let row = rows[i];
            let algo = validated.attestation.pack_checksum.spec_algo();
            let stop = row.entry.offset + row.entry.length;
            let inflated = zlib_decoded(pack.subrange(row.compressed.offset as int, stop))->0;
            match row.representation {
                PushPackEntryKind::Direct => {
                    &&& row.delta_depth == 0
                    &&& row.base_header.length == 0
                    &&& row.oid == canonical_id(algo, row.kind, inflated)
                    &&& row.resolved_size == row.declared_size
                },
                PushPackEntryKind::OfsDelta { base_offset, base_oid } => exists|j: int|
                    0 <= j < i && (#[trigger] rows[j]).entry.offset == base_offset && rows[j].oid
                        == base_oid && rows[j].kind == row.kind && row.delta_depth
                        == rows[j].delta_depth + 1,
                PushPackEntryKind::RefDelta { base_oid, external } => if external {
                    &&& row.delta_depth == 1
                    &&& row.base_header.length == algo.spec_len()
                } else {
                    exists|j: int|
                        0 <= j < rows.len() && (#[trigger] rows[j]).oid == base_oid && rows[j].kind
                            == row.kind && row.delta_depth == rows[j].delta_depth + 1
                },
            }
        }),
{
    let rows = validated.index@;
    let algo = validated.attestation.pack_checksum.spec_algo();
    let (body_end, entries, payloads) = validated_entries::<S>(validated, pack, limits);
    lemma_row_placed(pack, algo, body_end, rows, entries, payloads, i);
    assert(entry_placed(pack, algo, body_end, entries, i));
    assert(entry_resolved(pack, algo, entries, payloads, i));
    match entries[i].dependency {
        EntryDependency::Direct(_) => {},
        EntryDependency::Ofs { base_index, .. } => {
            let j = base_index as int;
            lemma_row_placed(pack, algo, body_end, rows, entries, payloads, j);
            assert(entry_placed(pack, algo, body_end, entries, j));
            assert(rows[j].oid == entries[j].resolved->0.oid);
        },
        EntryDependency::Ref { base_oid } => {
            if !entries[i].resolved->0.external {
                let j = choose|j: int|
                    0 <= j < entries.len() && #[trigger] resolved_against(
                        pack,
                        entries,
                        payloads,
                        i,
                        j,
                    ) && entries[j].resolved->0.oid == base_oid;
                assert(rows[j] == row_of(entries, j));
            }
        },
    }
}

/// Every commit, tree and tag of a validated pack is kept under its identity, without fault.
pub proof fn law_validated_structure_is_kept<S: StructuralParser>(
    validated: ValidatedPushPack,
    pack: Seq<u8>,
    limits: ReceivePackLimits,
    i: int,
)
    requires
        validated_from::<S>(validated, pack, limits),
        0 <= i < validated.index@.len(),
        validated.index@[i].kind != ObjectKind::Blob,
    ensures
        exists|k: int|
            0 <= k < validated.structural_objects@.len() && (
            #[trigger] validated.structural_objects@[k]).oid == validated.index@[i].oid
                && !fault_in(
                Some(validated.structural_objects@[k].metadata),
                validated.index@[i].kind,
                validated.attestation.pack_checksum.spec_algo(),
            ),
{
    let rows = validated.index@;
    let algo = validated.attestation.pack_checksum.spec_algo();
    let (body_end, entries, payloads) = validated_entries::<S>(validated, pack, limits);
    assert(rows[i] == row_of(entries, i));
    assert(entries[i].resolved is Some);
    assert(entry_kept::<S>(
        validated.structural_objects@,
        entries[i].resolved->0,
        payloads[i],
        algo,
    ));
    let k = choose|k: int|
        0 <= k < validated.structural_objects@.len() && kept_for::<S>(
            #[trigger] validated.structural_objects@[k],
            entries[i].resolved->0.oid,
            entries[i].resolved->0.kind,
            payloads[i],
            algo,
        );
    assert(validated.structural_objects@[k].oid == rows[i].oid);
}

/// The attestation counts the rows, and calls the pack self-contained exactly where no row has its
/// base outside.
pub proof fn law_attestation_is_that_of_the_rows<S: StructuralParser>(
    validated: ValidatedPushPack,
    pack: Seq<u8>,
    limits: ReceivePackLimits,
)
    requires
        validated_from::<S>(validated, pack, limits),
    ensures
        validated.attestation.object_count == validated.index@.len(),
        validated.attestation.validation_complete,
        validated.attestation.self_contained <==> validated.summary.external_bases == 0,
{
    law_counts_are_those_of_the_rows::<S>(validated, pack, limits);
    let rows = validated.index@;
    assert(crate::bytes::be_value(pack.subrange(8, 12)) == rows.len());
    crate::bytes::lemma_pow256_values();
    crate::bytes::lemma_be_value_range(pack.subrange(8, 12));
    lemma_none_outside(rows);
}

proof fn lemma_none_outside(rows: Seq<PushPackIndexRow>)
    ensures
        rows.filter(based_outside()).len() == 0 <==> !crate::push_pack_validation::needs_outside(
            rows,
        ),
    decreases rows.len(),
{
    reveal(Seq::filter);
    if rows.len() > 0 {
        let front = rows.drop_last();
        lemma_none_outside(front);
        assert(rows[rows.len() - 1] == rows.last());
        assert(forall|i: int| 0 <= i < front.len() ==> front[i] == #[trigger] rows[i]);
        if crate::push_pack_validation::needs_outside(front) {
            let i = choose|i: int|
                0 <= i < front.len() && ((#[trigger] front[i]).representation matches
                    PushPackEntryKind::RefDelta { external, .. } && external);
            assert(rows[i] == front[i]);
        }
        if crate::push_pack_validation::needs_outside(rows) {
            let i = choose|i: int|
                0 <= i < rows.len() && ((#[trigger] rows[i]).representation matches
                    PushPackEntryKind::RefDelta { external, .. } && external);
            if i < front.len() {
                assert(front[i] == rows[i]);
            }
        }
    }
}

/// An observation is accepted exactly where it was not cancelled, lies from the start on and before
/// the deadline, and not before the one accepted last; only then is it remembered.
pub proof fn law_time_never_runs_back(
    checkpoint: ValidationCheckpoint,
    first: PushPackValidationObservation,
    second: PushPackValidationObservation,
)
    ensures
        checkpoint.acceptance(first) is Ok ==> {
            &&& !first.cancelled
            &&& checkpoint.options.started_at.unix_nanos <= first.observed_at.unix_nanos
            &&& first.observed_at.unix_nanos < checkpoint.options.deadline.unix_nanos
            &&& checkpoint.after(first).acceptance(second) is Ok <==> {
                &&& !second.cancelled
                &&& first.observed_at.unix_nanos <= second.observed_at.unix_nanos
                &&& second.observed_at.unix_nanos < checkpoint.options.deadline.unix_nanos
            }
        },
        checkpoint.acceptance(first) is Err ==> checkpoint.after(first) == checkpoint,
        first.cancelled <==> checkpoint.acceptance(first) == Err::<(), PushPackValidationError>(
            PushPackValidationError::Cancelled,
        ),
        checkpoint.last_observed_at is None && !first.cancelled
            && checkpoint.options.started_at.unix_nanos <= first.observed_at.unix_nanos
            && first.observed_at.unix_nanos < checkpoint.options.deadline.unix_nanos
            ==> checkpoint.acceptance(first) is Ok,
{
}

/// A sealed quarantine that was not attested yet is accepted under its own generation, and under no
/// other.
pub proof fn law_sealed_quarantine_is_ready(
    snapshot: QuarantineSnapshot,
    fence: QuarantineFence,
    manifest: QuarantineManifest,
    checksum: ObjectId,
)
    ensures
        snapshot.state == QuarantineState::Validated && snapshot.generation == fence.generation
            && snapshot.manifest == Some(manifest) && manifest.pack_checksum == Some(checksum)
            && manifest.pack_bytes >= 12 + manifest.hash_algo.spec_len() && checksum.spec_algo()
            == manifest.hash_algo && !manifest.self_contained && manifest.index_checksum is None
            ==> crate::push_pack_validation::quarantine_fault(snapshot, fence) is None,
        snapshot.generation != fence.generation || snapshot.state != QuarantineState::Validated
            ==> crate::push_pack_validation::quarantine_fault(snapshot, fence) == Some(
            PushPackValidationError::InvalidQuarantine,
        ),
{
}

/// The type codes of the four kinds are read back as those kinds, and no other code is a kind.
pub proof fn law_codes_read_back(code: u8, kind: ObjectKind)
    ensures
        kind_of_code(code) == Some(kind) <==> kind.code() == code,
        kind_of_code(code) is Some <==> 1 <= code <= 4,
{
}

/// A base from outside is refused exactly where the provider failed, or where what it gave is too
/// large or another object than the one named; none at all is no failure.
pub proof fn law_named_base_is_never_refused(
    oid: ObjectId,
    base: AuthorizedPushBase,
    algo: HashAlgo,
    options: PushPackValidationOptions,
)
    requires
        canonical_id(algo, base.kind, base.data@) == oid,
        base.data@.len() <= options.limits.max_object_bytes,
    ensures
        !crate::push_pack_validation::base_refused(oid, Ok(Some(base)), algo, options),
        !crate::push_pack_validation::base_refused(oid, Ok(None), algo, options),
        crate::push_pack_validation::base_refused(
            oid,
            Err(AuthorizedPushBaseError),
            algo,
            options,
        ),
        forall|other: ObjectId|
            other != oid ==> #[trigger] crate::push_pack_validation::base_refused(
                other,
                Ok(Some(base)),
                algo,
                options,
            ),
{
}

/// A base from outside is given exactly where the provider answers with an object that hashes to the
/// identity that was asked for.
pub proof fn law_given_bases_hash_to_their_identity<
    B: crate::push_pack_validation::AuthorizedPushBaseProvider,
>(
    tenant: Seq<char>,
    repository: Seq<char>,
    algo: crate::object::HashAlgo,
    oid: crate::object::ObjectId,
    base: crate::push_pack_validation::AuthorizedPushBase,
)
    ensures
        B::gives(tenant, repository, oid, Ok(Some(base))) && crate::digest::canonical_id(
            algo,
            base.kind,
            base.data@,
        ) == oid ==> crate::push_pack_validation::base_given::<B>(tenant, repository, algo, oid),
        crate::push_pack_validation::base_given::<B>(tenant, repository, algo, oid) ==> exists|
            given: crate::push_pack_validation::AuthorizedPushBase,
        | #[trigger]
            B::gives(tenant, repository, oid, Ok(Some(given))) && oid
                == crate::digest::canonical_id(algo, given.kind, given.data@),
{
}

/// An entry waits for its base exactly while the base is not resolved: entries that are stored in
/// full never wait, an offset delta waits for the entry at its base's place, and a delta by identity
/// for an entry with that identity, unless the provider has it.
pub proof fn law_entries_wait_for_unresolved_bases<
    B: crate::push_pack_validation::AuthorizedPushBaseProvider,
>(
    tenant: Seq<char>,
    repository: Seq<char>,
    entries: Seq<crate::push_pack_validation::ParsedEntry>,
    i: int,
    j: int,
)
    requires
        0 <= j < entries.len(),
        entries[j].resolved is Some,
    ensures
        entries[i].dependency is Direct ==> !crate::push_pack_validation::waits::<B>(
            tenant,
            repository,
            entries,
            i,
        ),
        entries[i].dependency matches crate::push_pack_validation::EntryDependency::Ofs {
            base_index,
            ..
        } && base_index == j ==> !crate::push_pack_validation::waits::<B>(
            tenant,
            repository,
            entries,
            i,
        ),
        entries[i].dependency matches crate::push_pack_validation::EntryDependency::Ref { base_oid }
            && base_oid == entries[j].resolved->0.oid ==> !crate::push_pack_validation::waits::<B>(
            tenant,
            repository,
            entries,
            i,
        ),
{
}

/// A blob may declare as many bytes as an object may have; any other object, no more than metadata
/// may take either; and a delta, as many as its instructions may take.
pub proof fn law_streams_are_limited_by_kind(limits: crate::push_metrics::ReceivePackLimits, code: u8)
    ensures
        code == 3 ==> crate::push_pack_validation::stream_limit(limits, code)
            == limits.max_object_bytes,
        code == 1 || code == 2 || code == 4 ==> {
            let limit = crate::push_pack_validation::stream_limit(limits, code);
            &&& limit <= limits.max_object_bytes
            &&& limit <= limits.max_metadata_memory_bytes
            &&& limit == limits.max_object_bytes || limit == limits.max_metadata_memory_bytes
        },
        code == 6 || code == 7 ==> crate::push_pack_validation::stream_limit(limits, code)
            == limits.max_delta_instruction_bytes,
{
}

/// A validated pack is the manifest's exactly where it has as many rows and the same checksum.
pub proof fn law_validated_pack_is_the_manifests(
    validated: crate::push_pack_validation::ValidatedPushPack,
    manifest: crate::push_quarantine::QuarantineManifest,
)
    ensures
        crate::push_pack_validation::manifest_matched(validated, manifest) <==> (
        validated.index@.len() == manifest.object_count && manifest.pack_checksum is Some
            && manifest.pack_checksum->0 == validated.attestation.pack_checksum),
{
}

/// A row of the index spells its identity, where its entry starts, how long it is, how large its
/// object is, and the checksum of its bytes.
pub proof fn law_index_rows_are_spelled(
    rows: Seq<crate::push_pack_validation::PushPackIndexRow>,
    row: crate::push_pack_validation::PushPackIndexRow,
)
    ensures
        ({
            let bytes = crate::push_pack_validation::row_bytes(row);
            let name = row.oid@.len() as int;
            &&& bytes.len() == name + 28
            &&& bytes.take(name) == row.oid@
            &&& bytes.subrange(name, name + 8) == crate::bytes::be_bytes(row.entry.offset as int, 8)
            &&& bytes.subrange(name + 8, name + 16) == crate::bytes::be_bytes(
                row.entry.length as int,
                8,
            )
            &&& bytes.subrange(name + 16, name + 24) == crate::bytes::be_bytes(
                row.resolved_size as int,
                8,
            )
            &&& bytes.subrange(name + 24, name + 28) == crate::bytes::be_bytes(row.crc32 as int, 4)
        }),
        crate::push_pack_validation::rows_bytes(rows.push(row))
            == crate::push_pack_validation::rows_bytes(rows)
            + crate::push_pack_validation::row_bytes(row),
        crate::push_pack_validation::rows_bytes(Seq::empty()) == Seq::<u8>::empty(),
{
    crate::bytes::lemma_be_bytes_len(row.entry.offset as int, 8);
    crate::bytes::lemma_be_bytes_len(row.entry.length as int, 8);
    crate::bytes::lemma_be_bytes_len(row.resolved_size as int, 8);
    crate::bytes::lemma_be_bytes_len(row.crc32 as int, 4);
    let bytes = crate::push_pack_validation::row_bytes(row);
    let name = row.oid@.len() as int;
    assert(bytes.take(name) =~= row.oid@);
    assert(bytes.subrange(name, name + 8) =~= crate::bytes::be_bytes(row.entry.offset as int, 8));
    assert(bytes.subrange(name + 8, name + 16) =~= crate::bytes::be_bytes(
        row.entry.length as int,
        8,
    ));
    assert(bytes.subrange(name + 16, name + 24) =~= crate::bytes::be_bytes(
        row.resolved_size as int,
        8,
    ));
    assert(bytes.subrange(name + 24, name + 28) =~= crate::bytes::be_bytes(row.crc32 as int, 4));
    assert(rows.push(row).drop_last() =~= rows);
}

/// An index checksum is made of a header that declares as many bytes as follow it: the pack's
/// checksum and the rows.
pub proof fn law_index_length_is_that_of_its_bytes(
    rows: Seq<crate::push_pack_validation::PushPackIndexRow>,
    algo: crate::object::HashAlgo,
)
    requires
        forall|i: int|
            0 <= i < rows.len() ==> (#[trigger] rows[i]).oid@.len() == algo.spec_len(),
    ensures
        crate::push_pack_validation::rows_bytes(rows).len() + algo.spec_len()
            == crate::push_pack_validation::index_payload_len(rows.len() as int, algo),
    decreases rows.len(),
{
    let row = algo.spec_len() as int + 28;
    if rows.len() > 0 {
        let front = rows.drop_last();
        assert forall|i: int| 0 <= i < front.len() implies (#[trigger] front[i]).oid@.len()
            == algo.spec_len() by {
            assert(rows[i] == front[i]);
        }
        law_index_length_is_that_of_its_bytes(front, algo);
        law_index_rows_are_spelled(front, rows.last());
        assert(rows[rows.len() - 1].oid@.len() == algo.spec_len());
        assert(rows.len() * row == front.len() * row + row) by (nonlinear_arith)
            requires
                rows.len() == front.len() + 1,
        ;
    } else {
        assert(0 * row == 0) by (nonlinear_arith);
    }
}

/// A structural object is accounted eight times its payload and 256 bytes more.
pub proof fn law_structural_cost_is_by_byte(size: int)
    ensures
        crate::push_pack_validation::structural_cost(0) == 256,
        crate::push_pack_validation::structural_cost(size + 1)
            - crate::push_pack_validation::structural_cost(size) == 8,
{
}

/// One more object is counted in its own kind; blobs are not structural.
pub proof fn law_structural_objects_are_counted_by_kind(
    summary: crate::push_pack_validation::PushValidationSummary,
    kind: crate::object::ObjectKind,
    other: crate::object::ObjectKind,
)
    requires
        crate::push_pack_validation::count_of(summary, kind) < u64::MAX,
    ensures
        kind !is Blob ==> crate::push_pack_validation::count_of(
            crate::push_pack_validation::counted(summary, kind),
            kind,
        ) - crate::push_pack_validation::count_of(summary, kind) == 1,
        other != kind || kind is Blob ==> crate::push_pack_validation::count_of(
            crate::push_pack_validation::counted(summary, kind),
            other,
        ) == crate::push_pack_validation::count_of(summary, other),
        crate::push_pack_validation::count_of(summary, crate::object::ObjectKind::Commit)
            == summary.commits,
        crate::push_pack_validation::count_of(summary, crate::object::ObjectKind::Tree)
            == summary.trees,
        crate::push_pack_validation::count_of(summary, crate::object::ObjectKind::Tag)
            == summary.tags,
        crate::push_pack_validation::count_of(summary, crate::object::ObjectKind::Blob)
            == summary.blobs,
{
}

/// Payloads are held of the resolved entries, and of no others.
pub proof fn law_resolved_payloads_are_held(
    entries: Seq<crate::push_pack_validation::ParsedEntry>,
    entry: crate::push_pack_validation::ParsedEntry,
    payloads: Seq<Seq<u8>>,
)
    ensures
        crate::push_pack_validation::held_bytes(Seq::empty(), payloads) == 0,
        entry.resolved is Some ==> crate::push_pack_validation::held_bytes(
            entries.push(entry),
            payloads,
        ) - crate::push_pack_validation::held_bytes(entries, payloads)
            == payloads[entries.len() as int].len(),
        entry.resolved is None ==> crate::push_pack_validation::held_bytes(
            entries.push(entry),
            payloads,
        ) == crate::push_pack_validation::held_bytes(entries, payloads),
{
    assert(entries.push(entry).drop_last() =~= entries);
}

/// A base distance is read from the bytes up to and with the first that announces no other.
pub proof fn law_distances_end_where_they_end(pack: Seq<u8>, start: int, length: int, distance: int)
    requires
        crate::push_pack_validation::distance_read(pack, start, length, distance),
    ensures
        0 <= start,
        0 < length,
        start + length <= pack.len(),
        pack[start + length - 1] < 128,
        forall|i: int| start <= i < start + length - 1 ==> #[trigger] pack[i] >= 128,
        crate::varint::ofs_fold(pack.subrange(start, start + length)) == distance,
{
}

/// A delta makes an object of a base exactly where it begins with both their sizes and its
/// instructions, applied to the base, give the object.
pub proof fn law_deltas_make_their_objects(
    base: Seq<u8>,
    result: Seq<u8>,
    instructions: Seq<u8>,
)
    ensures
        ({
            let sizes = crate::varint::varint(base.len()) + crate::varint::varint(result.len());
            let delta = sizes + instructions;
            crate::push_pack_validation::delta_makes(delta, base, result) <==> (
            crate::delta_code::delta_apply(base, delta, sizes.len() as int) is Some
                && crate::delta_code::delta_apply(base, delta, sizes.len() as int)->0 == result)
        }),
{
    let first = crate::varint::varint(base.len());
    let second = crate::varint::varint(result.len());
    let sizes = first + second;
    let delta = sizes + instructions;
    assert(delta.subrange(0, first.len() as int) =~= first);
    assert(delta.subrange(first.len() as int, sizes.len() as int) =~= second);
}

/// A reference is valid exactly where it is of the repository's format and its bytes do not spell
/// zero.
pub proof fn law_valid_references_name_something(
    oid: crate::object::ObjectId,
    algo: crate::object::HashAlgo,
)
    ensures
        crate::push_pack_validation::reference_valid(oid, algo) <==> (algo == oid.spec_algo()
            && crate::bytes::be_value(oid@) != 0),
{
    crate::format_laws::law_identities_are_their_bytes(oid, oid);
}

/// A resolved entry serves a delta exactly where the delta names it: by its place, or by its
/// identity. What it serves is its own payload, kind and depth.
pub proof fn law_entries_serve_the_deltas_that_name_them(
    algo: crate::object::HashAlgo,
    entries: Seq<crate::push_pack_validation::ParsedEntry>,
    payloads: Seq<Seq<u8>>,
    i: int,
    j: int,
)
    requires
        0 <= j < entries.len(),
        entries[j].resolved is Some,
    ensures
        ({
            let served = crate::push_pack_validation::base_serves(
                algo,
                entries,
                payloads,
                i,
                entries[j].resolved->0.kind,
                payloads[j],
                entries[j].resolved->0.depth,
            );
            match entries[i].dependency {
                crate::push_pack_validation::EntryDependency::Direct(_) => !served,
                crate::push_pack_validation::EntryDependency::Ofs { base_index, .. } => base_index
                    == j ==> served,
                crate::push_pack_validation::EntryDependency::Ref { base_oid } => base_oid
                    == entries[j].resolved->0.oid ==> served,
            }
        }),
{
    reveal(crate::push_pack_validation::base_serves);
    let entry = entries[j];
}

/// An offset delta is served by the entry at its base's place and by nothing else, and whatever
/// comes from outside is at depth zero.
pub proof fn law_offset_deltas_have_one_base(
    algo: crate::object::HashAlgo,
    entries: Seq<crate::push_pack_validation::ParsedEntry>,
    payloads: Seq<Seq<u8>>,
    i: int,
    kind: crate::object::ObjectKind,
    base: Seq<u8>,
    depth: u32,
)
    requires
        crate::push_pack_validation::base_serves(algo, entries, payloads, i, kind, base, depth),
        entries[i].dependency is Ofs,
    ensures
        ({
            let place = entries[i].dependency->base_index as int;
            &&& place < entries.len()
            &&& entries[place].resolved is Some
            &&& entries[place].resolved->0.kind == kind
            &&& entries[place].resolved->0.depth == depth
            &&& payloads[place] == base
        }),
{
    reveal(crate::push_pack_validation::base_serves);
}

/// Twelve bytes are enough to announce a count: the signature, version two or three, and the count.
pub proof fn law_headers_announce_their_count(version: int, count: u32, rest: Seq<u8>)
    requires
        version == 2 || version == 3,
    ensures
        crate::push_pack_validation::announces(
            seq![0x50u8, 0x41u8, 0x43u8, 0x4bu8] + crate::bytes::be_bytes(version, 4)
                + crate::bytes::be_bytes(count as int, 4) + rest,
            count as int,
        ),
{
    let mark = seq![0x50u8, 0x41u8, 0x43u8, 0x4bu8];
    let number = crate::bytes::be_bytes(version, 4);
    let total = crate::bytes::be_bytes(count as int, 4);
    let pack = mark + number + total + rest;
    crate::bytes::lemma_be_bytes_len(version, 4);
    crate::bytes::lemma_be_bytes_len(count as int, 4);
    crate::bytes::lemma_pow256_values();
    crate::bytes::lemma_be_decode_encode(version, 4);
    crate::bytes::lemma_be_decode_encode(count as int, 4);
    assert(pack.subrange(0, 4) =~= mark);
    assert(pack.subrange(4, 8) =~= number);
    assert(pack.subrange(8, 12) =~= total);
}

/// Every read that is asked for is counted once.
pub proof fn law_reads_are_counted_once(
    start: crate::push_pack_validation::ValidationCheckpoint,
    end: crate::push_pack_validation::ValidationCheckpoint,
    before: Seq<(crate::push_quarantine::QuarantineFence, u64, usize)>,
    more: Seq<(crate::push_quarantine::QuarantineFence, u64, usize)>,
)
    requires
        crate::push_pack_validation::reads_counted(start, end, before, before + more),
    ensures
        end.range_operations == start.range_operations + more.len(),
{
}

} // verus!
