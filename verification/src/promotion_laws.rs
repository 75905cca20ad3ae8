//! What holds of every promotion of a pack, into memory, into a database or into a store outside.

use crate::digest::hashed_id;
use crate::external_pack_promotion::{
    external_fault, external_install_error, external_target, first_plain, flat_parts, joined,
    key_char, key_prefix_fits, key_segment, last_plain, object_exact, options_fit, orphan_covers,
    part_count, part_placed, parts_fit, parts_placed, promotion_steps, promotion_work, segments,
    upload_plan, without_slashes, ExternalPackObject, ExternalPackPart, ExternalPackPromotionError,
    ExternalPackPromotionLimits, ExternalPackUploadPlan, ExternalPromotionEvent,
    ExternalPromotionOrphan, ExternalStorageOptions,
};
use crate::memory_pack_promotion::{
    memory_fault, memory_target, MemoryPackLedger, MemoryPackPromotionError,
    MemoryPackPromotionLimits, MemoryPackPromotionStage,
};
use crate::object::{HashAlgo, ObjectId};
use crate::pack_promotion::{
    binding_of, evidence_of, index_memory, pack_of, same_pack, stored_index, trailer_agrees,
    PackObjectIndex, PromotionBinding, PromotionScope, PromotionTarget, StoredPack,
};
use crate::pg_pack_promotion::{
    cleared, first_range, install_error, interrupted, pg_fault, pg_target, staging_work, untimely,
    PgPackPromotionControl, PgPackPromotionError, PgPackPromotionInstallError,
    PgPackPromotionLimits, PgPackPromotionObservation, PgPackPromotionStage, PgPackPromotionWork,
};
use crate::push_pack_validation::{PushPackIndexRow, ValidatedPushPack};
use crate::push_parallel_validation::rows_distinct;
use crate::push_prepared::PreparedPush;
use crate::push_quarantine::{QuarantineFence, QuarantineSnapshot};
use vstd::prelude::*;
use vstd::utf8::encode_utf8;

verus! {

/// The stored index has a row for every validated row, in the same order, and each says the same
/// of its object: its identity and kind, where its entry starts, how large it is, and how many
/// bytes of the pack its entry takes.
pub proof fn law_stored_index_says_what_was_validated(rows: Seq<PushPackIndexRow>, i: int)
    ensures
        stored_index(rows).len() == rows.len(),
        0 <= i < rows.len() ==> {
            let stored = stored_index(rows)[i];
            &&& stored.oid == rows[i].oid
            &&& stored.kind == rows[i].kind
            &&& stored.offset == rows[i].entry.offset
            &&& stored.size == rows[i].resolved_size
            &&& stored.compressed_size == rows[i].entry.length
        },
{
}

/// Every row takes the same number of bytes, at least 96 and those of the row itself.
pub proof fn law_index_memory_is_by_row(rows: int)
    ensures
        index_memory(0) == 0,
        index_memory(rows + 1) - index_memory(rows) == 96 + vstd::layout::size_of::<
            PackObjectIndex,
        >(),
{
    let row = 96 + vstd::layout::size_of::<PackObjectIndex>() as int;
    assert((rows + 1) * row - rows * row == row) by (nonlinear_arith);
    assert(0 * row == 0) by (nonlinear_arith);
}

/// A promotion is bound exactly where one sealed pack is meant throughout: the quarantine is of the
/// same tenant and repository, under the caller's fence, and its manifest is the prepared one; the
/// manifest, the attestation and the index agree in checksums, count and completeness; and the pack
/// is within the limit. The target is then what the manifest says.
pub proof fn law_bound_promotion_means_one_pack(
    prepared: PreparedPush,
    validated: ValidatedPushPack,
    snapshot: QuarantineSnapshot,
    fence: QuarantineFence,
    max_pack_bytes: u64,
    target: PromotionTarget,
)
    ensures
        binding_of(prepared, validated, snapshot, fence, max_pack_bytes) == PromotionBinding::Bound(
            target,
        ) <==> (snapshot.manifest == Some(target.manifest) && target.manifest.pack_checksum == Some(
            target.pack_checksum,
        ) && target.manifest.index_checksum == Some(target.index_checksum) && target.object_count
            == validated.index@.len() && snapshot.state is Validated && prepared.tenant@
            == snapshot.tenant@ && prepared.repository@ == snapshot.repository@ && fence == (
        QuarantineFence { id: snapshot.id, generation: snapshot.generation }) && validated.fence
            == fence && prepared.quarantine.id == fence.id && prepared.quarantine.generation
            == fence.generation && prepared.quarantine.manifest == target.manifest
            && prepared.quarantine.attestation == validated.attestation && prepared.pack_index@
            == validated.index@ && target.manifest.hash_algo == prepared.hash_algo
            && target.pack_checksum.spec_algo() == prepared.hash_algo
            && target.index_checksum.spec_algo() == prepared.hash_algo
            && prepared.fingerprint.spec_algo() == prepared.hash_algo && target.manifest.pack_bytes
            == snapshot.bytes && snapshot.bytes <= max_pack_bytes && target.manifest.object_count
            == target.object_count && validated.attestation.object_count == target.object_count
            && target.manifest.self_contained && validated.attestation.self_contained
            && validated.attestation.validation_complete && validated.attestation.pack_checksum
            == target.pack_checksum && validated.attestation.index_checksum
            == target.index_checksum && prepared.repository_generation > 0),
{
    if binding_of(prepared, validated, snapshot, fence, max_pack_bytes) == PromotionBinding::Bound(
        target,
    ) {
        assert(fence == (QuarantineFence { id: snapshot.id, generation: snapshot.generation }));
    }
}

/// Only a sealed and attested quarantine with more rows than can be counted has too many of them;
/// whatever else is not bound is unbound.
pub proof fn law_too_many_rows_are_told_apart(
    prepared: PreparedPush,
    validated: ValidatedPushPack,
    snapshot: QuarantineSnapshot,
    fence: QuarantineFence,
    max_pack_bytes: u64,
)
    ensures
        binding_of(prepared, validated, snapshot, fence, max_pack_bytes) is TooManyRows <==> (
        validated.index@.len() > 0xffff_ffff && snapshot.manifest is Some
            && snapshot.manifest->0.pack_checksum is Some && snapshot.manifest->0.index_checksum
            is Some),
{
}

/// Bytes end in their trailer exactly where they are a body and, behind it, the digest of that body,
/// and that digest is the checksum.
pub proof fn law_trailer_is_the_digest_of_the_body(
    pack: Seq<u8>,
    body: Seq<u8>,
    algo: HashAlgo,
    checksum: ObjectId,
)
    ensures
        checksum@.len() == algo.spec_len() ==> (trailer_agrees(body + checksum@, algo, checksum)
            <==> hashed_id(algo, body) == checksum),
        trailer_agrees(pack, algo, checksum) ==> {
            let front = pack.take(pack.len() - algo.spec_len());
            &&& pack == front + checksum@
            &&& hashed_id(algo, front) == checksum
        },
        pack.len() < algo.spec_len() ==> !trailer_agrees(pack, algo, checksum),
{
    if checksum@.len() == algo.spec_len() {
        let whole = body + checksum@;
        assert(whole.take(body.len() as int) =~= body);
        assert(whole.skip(body.len() as int) =~= checksum@);
    }
    if trailer_agrees(pack, algo, checksum) {
        let at = pack.len() - algo.spec_len();
        assert(pack =~= pack.take(at) + pack.skip(at));
    }
}

/// A scope is that of one push and one pack: it names their tenant, repository, quarantine,
/// generations, fingerprint and checksums, each in its own place.
pub proof fn law_scope_names_the_push(
    scope: PromotionScope,
    prepared: PreparedPush,
    fence: QuarantineFence,
    target: PromotionTarget,
)
    ensures
        scope.fits(prepared, fence, target) <==> (prepared.tenant@ == scope.tenant@
            && prepared.repository@ == scope.repository@ && fence == (QuarantineFence {
            id: scope.quarantine_id,
            generation: scope.quarantine_generation,
        }) && prepared.repository_generation == scope.repository_generation && prepared.fingerprint
            == scope.prepared_fingerprint && target.pack_checksum == scope.pack_checksum
            && target.index_checksum == scope.index_checksum),
{
    if scope.fits(prepared, fence, target) {
        assert(fence == (QuarantineFence {
            id: scope.quarantine_id,
            generation: scope.quarantine_generation,
        }));
    }
}

/// A pack made of a target has its checksums, count and size, is not placed in storage order yet,
/// and holds the given bytes and a row for every validated row.
pub proof fn law_pack_is_made_of_the_target(
    pack: StoredPack,
    target: PromotionTarget,
    rows: Seq<PushPackIndexRow>,
    data: Seq<u8>,
)
    requires
        pack_of(pack, target, rows, data),
    ensures
        pack.metadata.pack_checksum == target.pack_checksum,
        pack.metadata.index_checksum == target.index_checksum,
        pack.metadata.object_count == target.object_count,
        pack.metadata.size_bytes == target.manifest.pack_bytes,
        pack.metadata.storage_order == 0,
        pack.data@ == data,
        pack.index@.len() == rows.len(),
        forall|i: int|
            0 <= i < rows.len() ==> (#[trigger] pack.index@[i]).oid == rows[i].oid
                && pack.index@[i].offset == rows[i].entry.offset,
{
}

/// The evidence of an installed pack repeats the scope, and counts the pack's objects and bytes.
pub proof fn law_evidence_is_that_of_the_scope(
    scope: PromotionScope,
    pack: StoredPack,
    deduplicated: bool,
)
    ensures
        ({
            let evidence = evidence_of(scope, pack, deduplicated);
            &&& evidence.tenant == scope.tenant
            &&& evidence.repository == scope.repository
            &&& evidence.quarantine_id == scope.quarantine_id
            &&& evidence.quarantine_generation == scope.quarantine_generation
            &&& evidence.repository_generation == scope.repository_generation
            &&& evidence.pack_checksum == scope.pack_checksum
            &&& evidence.index_checksum == scope.index_checksum
            &&& evidence.prepared_fingerprint == scope.prepared_fingerprint
            &&& evidence.object_count == pack.metadata.object_count
            &&& evidence.size_bytes == pack.metadata.size_bytes
            &&& evidence.deduplicated == deduplicated
        }),
{
}

/// A pack is deduplicated within its repository, by its checksum: two promotions store the same
/// pack whatever quarantine they come from, and never across tenants or repositories.
pub proof fn law_packs_are_the_same_by_checksum(left: PromotionScope, right: PromotionScope)
    ensures
        same_pack(left, right) <==> (left.tenant@ == right.tenant@ && left.repository@
            == right.repository@ && left.pack_checksum == right.pack_checksum),
        same_pack(left, left),
        same_pack(left, right) == same_pack(right, left),
{
}

/// A ledger that has installed a stage holds its pack ever after, and an empty one holds nothing.
pub proof fn law_installed_pack_is_held(
    stages: Seq<MemoryPackPromotionStage>,
    stage: MemoryPackPromotionStage,
    scope: PromotionScope,
)
    ensures
        !MemoryPackLedger::holds(Seq::empty(), scope),
        MemoryPackLedger::holds(stages.push(stage), scope) <==> (MemoryPackLedger::holds(
            stages,
            scope,
        ) || (stage.scope.tenant@ == scope.tenant@ && stage.scope.repository@ == scope.repository@
            && stage.scope.pack_checksum == scope.pack_checksum)),
{
    let after = stages.push(stage);
    assert(after[stages.len() as int] == stage);
    if MemoryPackLedger::holds(stages, scope) {
        let i = choose|i: int| 0 <= i < stages.len() && same_pack((#[trigger] stages[i]).scope, scope);
        assert(after[i] == stages[i]);
    }
    if MemoryPackLedger::holds(after, scope) {
        let i = choose|i: int| 0 <= i < after.len() && same_pack((#[trigger] after[i]).scope, scope);
        if i < stages.len() {
            assert(stages[i] == after[i]);
        }
    }
}

/// A database ledger that has installed a stage holds its pack ever after, and an empty one holds
/// nothing.
pub proof fn law_recorded_pack_is_held(
    stages: Seq<PgPackPromotionStage>,
    stage: PgPackPromotionStage,
    scope: PromotionScope,
)
    ensures
        !crate::pg_pack_promotion::PgPackLedger::holds(Seq::empty(), scope),
        crate::pg_pack_promotion::PgPackLedger::holds(stages.push(stage), scope) <==> (
        crate::pg_pack_promotion::PgPackLedger::holds(stages, scope) || (stage.scope.tenant@
            == scope.tenant@ && stage.scope.repository@ == scope.repository@
            && stage.scope.pack_checksum == scope.pack_checksum)),
{
    let after = stages.push(stage);
    assert(after[stages.len() as int] == stage);
    if crate::pg_pack_promotion::PgPackLedger::holds(stages, scope) {
        let i = choose|i: int| 0 <= i < stages.len() && same_pack((#[trigger] stages[i]).scope, scope);
        assert(after[i] == stages[i]);
    }
    if crate::pg_pack_promotion::PgPackLedger::holds(after, scope) {
        let i = choose|i: int| 0 <= i < after.len() && same_pack((#[trigger] after[i]).scope, scope);
        if i < stages.len() {
            assert(stages[i] == after[i]);
        }
    }
}

/// Promotion limits may be used exactly where no size is zero or above its ceiling, and, where there
/// is a deadline, it comes after the start and within a day of it.
pub proof fn law_usable_promotion_limits(
    memory: MemoryPackPromotionLimits,
    database: PgPackPromotionLimits,
)
    ensures
        memory.valid() <==> (0 < memory.max_pack_bytes <= 17_592_186_044_416 && 0
            < memory.max_index_bytes <= 17_179_869_184 && 0 < memory.range_chunk_bytes
            <= 17_179_869_184),
        database.valid() <==> (0 < database.max_pack_bytes <= 17_592_186_044_416 && 0
            < database.max_index_bytes <= 17_179_869_184 && 0 < database.range_chunk_bytes
            <= 17_179_869_184 && 0 < database.deadline.unix_nanos - database.started_at.unix_nanos
            <= 86_400_000_000_000),
{
}

/// Limits of a promotion into a store outside may be used exactly where no size is zero or above its
/// ceiling, the parts in flight together fit memory, the deadline comes after the start and within
/// a day of it, and nothing is collected before the deadline.
pub proof fn law_usable_external_limits(limits: ExternalPackPromotionLimits)
    ensures
        limits.valid() <==> (0 < limits.max_pack_bytes <= 17_592_186_044_416 && 0
            < limits.max_index_bytes <= 17_179_869_184 && 0 < limits.part_bytes <= 5_368_709_120
            && 0 < limits.maximum_in_flight_parts && limits.part_bytes
            * limits.maximum_in_flight_parts <= 17_179_869_184 && 0 < limits.maximum_parts <= 10_000
            && 0 < limits.deadline.unix_nanos - limits.started_at.unix_nanos <= 86_400_000_000_000
            && limits.orphan_not_before.unix_nanos >= limits.deadline.unix_nanos),
{
}

/// Under usable limits a promotion into memory can be staged exactly where it is bound, its index
/// and its bytes fit, and it is long enough for a trailer. Whoever asks for too much is told of the
/// limit, and whoever means no one pack, of the binding.
pub proof fn law_bound_pack_is_staged_in_memory(
    prepared: PreparedPush,
    validated: ValidatedPushPack,
    snapshot: QuarantineSnapshot,
    fence: QuarantineFence,
    limits: MemoryPackPromotionLimits,
)
    ensures
        ({
            let fault = memory_fault(prepared, validated, snapshot, fence, limits);
            let binding = binding_of(prepared, validated, snapshot, fence, limits.max_pack_bytes);
            &&& fault is None <==> (binding matches PromotionBinding::Bound(target)
                && limits.valid() && index_memory(validated.index@.len() as int)
                <= limits.max_index_bytes && target.manifest.hash_algo.spec_len() <= target.manifest.pack_bytes <= usize::MAX)
            &&& fault == Some(MemoryPackPromotionError::InvalidLimits) <==> !limits.valid()
            &&& fault == Some(MemoryPackPromotionError::MetadataLimit) ==> !(
            binding is Unbound)
            &&& fault == Some(MemoryPackPromotionError::Binding) ==> !(binding is TooManyRows)
            &&& limits.valid() && binding is Unbound ==> fault == Some(
                MemoryPackPromotionError::Binding,
            )
            &&& limits.valid() && index_memory(validated.index@.len() as int)
                > limits.max_index_bytes && binding is Bound ==> fault == Some(
                MemoryPackPromotionError::MetadataLimit,
            )
            &&& (fault matches Some(error) ==> error is InvalidLimits || error is MetadataLimit
                || error is Binding)
            &&& fault is None ==> snapshot.manifest == Some(
                memory_target(prepared, validated, snapshot, fence, limits).manifest,
            )
        }),
{
}

/// Under usable limits a promotion into a database can be staged exactly where it is bound, its
/// index and its bytes fit, and it is long enough for a trailer.
pub proof fn law_bound_pack_is_staged_in_a_database(
    prepared: PreparedPush,
    validated: ValidatedPushPack,
    snapshot: QuarantineSnapshot,
    fence: QuarantineFence,
    limits: PgPackPromotionLimits,
)
    ensures
        ({
            let fault = pg_fault(prepared, validated, snapshot, fence, limits);
            let binding = binding_of(prepared, validated, snapshot, fence, limits.max_pack_bytes);
            &&& fault is None <==> (binding matches PromotionBinding::Bound(target) && index_memory(
                validated.index@.len() as int,
            ) <= limits.max_index_bytes && target.manifest.hash_algo.spec_len()
                <= target.manifest.pack_bytes <= usize::MAX)
            &&& fault == Some(PgPackPromotionError::MetadataLimit) ==> !(binding is Unbound)
            &&& fault == Some(PgPackPromotionError::Binding) ==> !(binding is TooManyRows)
            &&& binding is Unbound ==> fault == Some(PgPackPromotionError::Binding)
            &&& index_memory(validated.index@.len() as int) > limits.max_index_bytes
                && binding is Bound ==> fault == Some(PgPackPromotionError::MetadataLimit)
            &&& (fault matches Some(error) ==> error is MetadataLimit || error is Binding)
            &&& fault is None ==> snapshot.manifest == Some(
                pg_target(prepared, validated, snapshot, fence, limits).manifest,
            )
            &&& fault is None ==> staging_work(prepared, validated, snapshot, fence, limits)
                == validated.index@.len() + snapshot.bytes + snapshot.bytes + 1
        }),
{
}

/// Why an installation failed is told without loss, and never as anything that a promotion finds
/// out by itself.
pub proof fn law_install_failures_are_told_apart(
    left: PgPackPromotionInstallError,
    right: PgPackPromotionInstallError,
)
    ensures
        install_error(left) == install_error(right) ==> left == right,
        external_install_error(left) == external_install_error(right) ==> left == right,
        left is StaleGeneration <==> install_error(left) is StaleGeneration,
        left is Collision <==> install_error(left) is Collision,
        left is Backend <==> install_error(left) is Backend,
        left is StaleGeneration <==> external_install_error(left) is StaleGeneration,
        left is Collision <==> external_install_error(left) is Collision,
        left is Backend <==> external_install_error(left) is Backend,
{
}

/// The first range is as long as a range may be, and no longer than the pack.
pub proof fn law_first_range_is_the_longest(total: u64, limits: PgPackPromotionLimits)
    ensures
        first_range(total, limits) <= total,
        first_range(total, limits) <= limits.range_chunk_bytes,
        first_range(total, limits) == total || first_range(total, limits)
            == limits.range_chunk_bytes,
{
}

/// A run that goes on was granted its units by someone who was neither cancelled nor too early nor
/// too late; one that is stopped was refused its units, cancelled or observed out of time.
pub proof fn law_promotion_runs_in_time<W: PgPackPromotionWork, C: PgPackPromotionControl>(
    limits: PgPackPromotionLimits,
    units: u64,
    error: PgPackPromotionError,
    observation: PgPackPromotionObservation,
)
    requires
        C::observes(observation),
    ensures
        !observation.cancelled && limits.started_at.unix_nanos
            <= observation.observed_at.unix_nanos && observation.observed_at.unix_nanos
            < limits.deadline.unix_nanos && W::answers(units, true) ==> cleared::<W, C>(
            limits,
            units,
        ),
        cleared::<W, C>(limits, units) ==> W::answers(units, true),
        observation.cancelled ==> interrupted::<W, C>(
            limits,
            units,
            PgPackPromotionError::Cancelled,
        ),
        observation.observed_at.unix_nanos >= limits.deadline.unix_nanos
            || observation.observed_at.unix_nanos < limits.started_at.unix_nanos ==> untimely::<C>(
            limits,
            observation,
        ) && interrupted::<W, C>(limits, units, PgPackPromotionError::Deadline),
        W::answers(units, false) ==> interrupted::<W, C>(
            limits,
            units,
            PgPackPromotionError::WorkBudget,
        ),
        interrupted::<W, C>(limits, units, error) ==> error is WorkBudget || error is Cancelled
            || error is Deadline,
{
}

/// A path between slashes.
pub open spec fn slashed(parts: Seq<Seq<char>>) -> Seq<char>
    decreases parts.len(),
{
    if parts.len() == 0 {
        Seq::empty()
    } else if parts.len() == 1 {
        parts[0]
    } else {
        slashed(parts.drop_last()) + seq!['/'] + parts.last()
    }
}

/// A path is its parts with a slash between each two of them, and no part has a slash in it.
pub proof fn law_segments_make_the_path(path: Seq<char>)
    ensures
        segments(path).len() > 0,
        slashed(segments(path)) == path,
        forall|i: int, j: int|
            0 <= i < segments(path).len() && 0 <= j < segments(path)[i].len() ==> #[trigger] segments(
                path,
            )[i][j] != '/',
    decreases path.len(),
{
    if path.len() == 0 {
        assert(segments(path)[0] =~= Seq::<char>::empty());
        assert(slashed(segments(path)) =~= path);
    } else {
        let front = path.drop_last();
        let before = segments(front);
        let after = segments(path);
        law_segments_make_the_path(front);
        assert(path =~= front.push(path.last()));
        if path.last() == '/' {
            assert(after.drop_last() =~= before);
            assert(slashed(after) =~= slashed(before) + seq!['/'] + Seq::empty());
            assert(slashed(after) =~= path);
        } else {
            assert(after.drop_last() =~= before.drop_last());
            assert(after.last() == before.last().push(path.last()));
            if before.len() == 1 {
                assert(before[0] == before.last());
                assert(after[0] == after.last());
                assert(slashed(after) =~= path);
            } else {
                assert(slashed(after) =~= slashed(before.drop_last()) + seq!['/']
                    + before.last().push(path.last()));
                assert(slashed(after) =~= slashed(before).push(path.last()));
            }
        }
        assert forall|i: int, j: int|
            0 <= i < after.len() && 0 <= j < after[i].len() implies #[trigger] after[i][j] != '/' by {
            if i < before.len() {
                if j < before[i].len() {
                    assert(before[i][j] != '/');
                    if path.last() != '/' && i == before.len() - 1 {
                        assert(after[i] == before[i].push(path.last()));
                    } else {
                        assert(after[i] == before[i]);
                    }
                } else {
                    assert(path.last() != '/');
                    assert(after[i] == before.last().push(path.last()));
                }
            } else {
                assert(after[i] =~= Seq::<char>::empty());
            }
        }
    }
}

proof fn lemma_plain_start(text: Seq<char>, at: int)
    requires
        0 <= at <= text.len(),
    ensures
        at <= first_plain(text, at) <= text.len(),
        forall|i: int| at <= i < first_plain(text, at) ==> #[trigger] text[i] == '/',
        first_plain(text, at) < text.len() ==> text[first_plain(text, at)] != '/',
    decreases text.len() - at,
{
    if at < text.len() && text[at] == '/' {
        lemma_plain_start(text, at + 1);
    }
}

proof fn lemma_plain_end(text: Seq<char>, from: int, end: int)
    requires
        0 <= from <= end <= text.len(),
    ensures
        from <= last_plain(text, from, end) <= end,
        forall|i: int| last_plain(text, from, end) <= i < end ==> #[trigger] text[i] == '/',
        last_plain(text, from, end) > from ==> text[last_plain(text, from, end) - 1] != '/',
    decreases end - from,
{
    if from < end && text[end - 1] == '/' {
        lemma_plain_end(text, from, end - 1);
    }
}

/// Only slashes are taken from the ends of a text, and all of them: the rest neither begins nor ends
/// with one.
pub proof fn law_only_slashes_are_taken_away(text: Seq<char>)
    ensures
        ({
            let rest = without_slashes(text);
            let from = first_plain(text, 0);
            let end = last_plain(text, from, text.len() as int);
            &&& 0 <= from <= end <= text.len()
            &&& rest == text.subrange(from, end)
            &&& forall|i: int|
                0 <= i < text.len() && !(from <= i < end) ==> #[trigger] text[i] == '/'
            &&& rest.len() > 0 ==> rest.first() != '/' && rest.last() != '/'
        }),
{
    lemma_plain_start(text, 0);
    lemma_plain_end(text, first_plain(text, 0), text.len() as int);
}

/// A part of a key prefix is usable exactly where it is made of letters, digits, dashes, underscores
/// and dots, and is neither empty nor one dot nor two dots.
pub proof fn law_key_parts_are_plain(segment: Seq<char>, letter: char)
    ensures
        key_char(letter) <==> (0x61 <= letter as int <= 0x7a || 0x41 <= letter as int <= 0x5a || 0x30
            <= letter as int <= 0x39 || letter as int == 0x2d || letter as int == 0x5f
            || letter as int == 0x2e),
        key_segment(segment) ==> 0 < segment.len() && forall|i: int|
            0 <= i < segment.len() ==> key_char(#[trigger] segment[i]),
        segment.len() > 2 && (forall|i: int|
            0 <= i < segment.len() ==> key_char(#[trigger] segment[i])) ==> key_segment(segment),
        0 < segment.len() && (forall|i: int|
            0 <= i < segment.len() ==> key_char(#[trigger] segment[i])) && (exists|i: int|
            0 <= i < segment.len() && #[trigger] segment[i] != '.') ==> key_segment(segment),
        segment.len() == 0 || segment =~= seq!['.'] || segment =~= seq!['.', '.'] ==> !key_segment(
            segment,
        ),
{
    if 0 < segment.len() && (exists|i: int| 0 <= i < segment.len() && #[trigger] segment[i] != '.') {
        let i = choose|i: int| 0 <= i < segment.len() && #[trigger] segment[i] != '.';
        if segment == seq!['.'] {
            assert(segment[i] == '.');
        }
        if segment == seq!['.', '.'] {
            assert(segment[i] == '.');
        }
    }
}

/// A prefix may be left out; one that is there is judged part by part without the slashes at its
/// ends, and must not be made of slashes alone.
pub proof fn law_key_prefix_is_judged_by_its_parts(prefix: Seq<char>)
    ensures
        key_prefix_fits(Seq::empty()),
        prefix.len() > 0 ==> (key_prefix_fits(prefix) <==> (without_slashes(prefix).len() > 0
            && forall|i: int|
            0 <= i < segments(without_slashes(prefix)).len() ==> key_segment(
                #[trigger] segments(without_slashes(prefix))[i],
            ))),
        prefix.len() > 0 && (forall|i: int| 0 <= i < prefix.len() ==> #[trigger] prefix[i] == '/')
            ==> !key_prefix_fits(prefix),
{
    law_only_slashes_are_taken_away(prefix);
    let rest = without_slashes(prefix);
    let from = first_plain(prefix, 0);
    if rest.len() > 0 {
        assert(rest.first() == prefix[from]);
    }
}

/// A pack is cut into as many parts as are needed and no more: all but the last are full.
pub proof fn law_parts_are_just_enough(size_bytes: u64, part_bytes: usize)
    requires
        part_bytes > 0,
    ensures
        size_bytes <= part_count(size_bytes, part_bytes) * part_bytes,
        size_bytes > 0 ==> (part_count(size_bytes, part_bytes) - 1) * part_bytes < size_bytes,
        size_bytes == 0 ==> part_count(size_bytes, part_bytes) == 0,
{
    let size = size_bytes as int;
    let part = part_bytes as int;
    let count = size / part;
    vstd::arithmetic::div_mod::lemma_fundamental_div_mod(size, part);
    vstd::arithmetic::div_mod::lemma_mod_bound(size, part);
    assert(part * count == count * part) by (nonlinear_arith);
    assert((count + 1) * part == count * part + part) by (nonlinear_arith);
    assert((count - 1) * part == count * part - part) by (nonlinear_arith);
    if size == 0 {
        assert(count == 0) by {
            vstd::arithmetic::div_mod::lemma_div_basics(part);
        }
    }
}

/// A pack can be cut exactly where it has a part, no more parts than allowed, and, with more than
/// one, parts of at least five mebibytes.
pub proof fn law_cut_packs_have_large_parts(size_bytes: u64, limits: ExternalPackPromotionLimits)
    ensures
        parts_fit(size_bytes, limits) <==> (1 <= part_count(size_bytes, limits.part_bytes)
            <= limits.maximum_parts && (part_count(size_bytes, limits.part_bytes) == 1
            || limits.part_bytes >= 5 * 1024 * 1024)),
{
}

/// A stored object is the planned one exactly where size and checksum are the planned ones and it
/// has a version of at most 4096 bytes.
pub proof fn law_planned_object_is_recognized(
    object: ExternalPackObject,
    plan: ExternalPackUploadPlan,
)
    ensures
        object_exact(object, plan) <==> (plan.size_bytes == object.size_bytes
            && plan.content_checksum == object.content_checksum && 1 <= object.version@.len()
            <= 4096),
{
}

/// A store is configured for packs exactly where it is to be written to, has a name of at most 256
/// bytes and a usable key prefix.
pub proof fn law_store_is_configured(options: ExternalStorageOptions)
    ensures
        options_fit(options) <==> (options.write_packs_externally && 1 <= encode_utf8(
            options.backend_name@,
        ).len() <= 256 && key_prefix_fits(options.key_prefix@)),
{
}

/// An external promotion is refused before anything is done outside exactly where it is not bound,
/// the store is not configured, or its index or its parts do not fit.
pub proof fn law_bound_pack_is_uploaded(
    prepared: PreparedPush,
    validated: ValidatedPushPack,
    snapshot: QuarantineSnapshot,
    fence: QuarantineFence,
    options: ExternalStorageOptions,
    limits: ExternalPackPromotionLimits,
)
    ensures
        ({
            let fault = external_fault(prepared, validated, snapshot, fence, options, limits);
            let binding = binding_of(prepared, validated, snapshot, fence, limits.max_pack_bytes);
            &&& fault is None <==> (binding matches PromotionBinding::Bound(target) && options_fit(
                options,
            ) && index_memory(validated.index@.len() as int) <= limits.max_index_bytes && parts_fit(
                target.manifest.pack_bytes,
                limits,
            ))
            &&& binding is Unbound ==> fault == Some(ExternalPackPromotionError::Binding)
            &&& binding is Bound && !options_fit(options) ==> fault == Some(
                ExternalPackPromotionError::Binding,
            )
            &&& binding is TooManyRows ==> fault == Some(ExternalPackPromotionError::MetadataLimit)
            &&& fault == Some(ExternalPackPromotionError::Binding) ==> binding is Unbound
                || !options_fit(options)
            &&& (fault matches Some(error) ==> error is MetadataLimit || error is Binding)
            &&& fault is None ==> snapshot.manifest == Some(
                external_target(prepared, validated, snapshot, fence, limits).manifest,
            )
            &&& fault is None ==> promotion_work(
                prepared,
                validated,
                snapshot,
                fence,
                options,
                limits,
            ) == validated.index@.len() + 3 * snapshot.bytes + 8
        }),
{
}

/// The plan of an upload has the target's size and checksum, and the limits' parts.
pub proof fn law_upload_is_planned_for_the_target(
    target: PromotionTarget,
    limits: ExternalPackPromotionLimits,
)
    ensures
        ({
            let plan = upload_plan(target, limits);
            &&& plan.size_bytes == target.manifest.pack_bytes
            &&& plan.content_checksum == target.pack_checksum
            &&& plan.part_bytes == limits.part_bytes
            &&& plan.maximum_in_flight_parts == limits.maximum_in_flight_parts
            &&& plan.maximum_parts == limits.maximum_parts
        }),
{
}

/// An orphan record names the push, the object and the time before which it must not be collected.
pub proof fn law_orphan_record_names_the_object(
    orphan: ExternalPromotionOrphan,
    prepared: PreparedPush,
    fence: QuarantineFence,
    target: PromotionTarget,
    options: ExternalStorageOptions,
    limits: ExternalPackPromotionLimits,
    key: Seq<char>,
)
    ensures
        orphan_covers(orphan, prepared, fence, target, options, limits, key) <==> (prepared.tenant@
            == orphan.tenant@ && prepared.repository@ == orphan.repository@ && options.backend_name@
            == orphan.backend_name@ && key == orphan.storage_key@ && fence == (QuarantineFence {
            id: orphan.quarantine_id,
            generation: orphan.quarantine_generation,
        }) && prepared.fingerprint == orphan.prepared_fingerprint && target.pack_checksum
            == orphan.pack_checksum && target.manifest.pack_bytes == orphan.size_bytes
            && limits.orphan_not_before == orphan.not_before),
{
    if orphan_covers(orphan, prepared, fence, target, options, limits, key) {
        assert(fence == (QuarantineFence {
            id: orphan.quarantine_id,
            generation: orphan.quarantine_generation,
        }));
    }
}

/// Nothing is uploaded before a record of it exists, and nothing is installed before its version is
/// recorded: whatever step a promotion came to, the steps before it were taken, for the same key
/// and the same version.
pub proof fn law_records_come_before_the_work(
    steps: Seq<ExternalPromotionEvent>,
    prepared: PreparedPush,
    validated: ValidatedPushPack,
    fence: QuarantineFence,
    target: PromotionTarget,
    options: ExternalStorageOptions,
    limits: ExternalPackPromotionLimits,
    i: int,
)
    requires
        promotion_steps(steps, prepared, validated, fence, target, options, limits),
        0 <= i < steps.len(),
    ensures
        steps[i] matches ExternalPromotionEvent::Begin(key, plan) ==> i == 1 && steps[0]
            is Orphan && steps[0]->Orphan_0.storage_key@ == key && plan.size_bytes
            == target.manifest.pack_bytes && plan.content_checksum == target.pack_checksum,
        steps[i] matches ExternalPromotionEvent::Install(stage) ==> i == 3 && steps[2] is Orphan
            && steps[2]->Orphan_0.storage_version is Some && stage.scope.fits(
            prepared,
            fence,
            target,
        ) && stage.storage is External && stage.storage->storage_key@
            == steps[0]->Orphan_0.storage_key@ && stage.storage->storage_version@
            == steps[2]->Orphan_0.storage_version->0@ && stage.storage->storage_checksum
            == target.pack_checksum && stage.storage->backend_name@ == options.backend_name@
            && stage.pack.data@.len() == 0 && stage.pack.index@ == stored_index(validated.index@)
            && rows_distinct(validated.index@),
        steps[i] matches ExternalPromotionEvent::Orphan(orphan) ==> (i == 0 || i == 2)
            && orphan.pack_checksum == target.pack_checksum && orphan.size_bytes
            == target.manifest.pack_bytes && orphan.not_before == limits.orphan_not_before
            && orphan.storage_key@ == steps[0]->Orphan_0.storage_key@ && 0 < encode_utf8(
            orphan.storage_key@,
        ).len() <= 4096 && (orphan.storage_version is Some <==> i == 2) && (orphan.storage_checksum
            is Some <==> i == 2),
{
}

/// Parts that each stand in their place make up the front of the pack, without a gap: they are
/// numbered from one, and each begins where the one before it ends.
pub proof fn law_placed_parts_make_the_front(
    parts: Seq<ExternalPackPart>,
    content: Seq<u8>,
    plan: ExternalPackUploadPlan,
    algo: HashAlgo,
)
    requires
        parts_placed(parts, content, plan, algo),
    ensures
        joined(parts).len() <= content.len(),
        joined(parts) == content.take(joined(parts).len() as int),
        joined(parts).len() <= plan.size_bytes || parts.len() == 0,
        forall|i: int|
            0 <= i < parts.len() ==> (#[trigger] parts[i]).ordinal == i + 1 && parts[i].checksum
                == hashed_id(algo, parts[i].bytes@),
        parts.len() > 0 ==> joined(parts).len() == parts.last().offset + parts.last().bytes@.len(),
    decreases parts.len(),
{
    assert forall|i: int| 0 <= i < parts.len() implies (#[trigger] parts[i]).ordinal == i + 1
        && parts[i].checksum == hashed_id(algo, parts[i].bytes@) by {
        assert(part_placed(parts[i], i, content, plan, algo));
    }
    if parts.len() == 0 {
        assert(joined(parts) =~= content.take(0));
    } else {
        let front = parts.drop_last();
        let last = parts.last();
        assert forall|i: int| 0 <= i < front.len() implies part_placed(
            #[trigger] front[i],
            i,
            content,
            plan,
            algo,
        ) by {
            assert(part_placed(parts[i], i, content, plan, algo));
        }
        law_placed_parts_make_the_front(front, content, plan, algo);
        let place = parts.len() - 1;
        assert(part_placed(parts[place], place, content, plan, algo));
        let size = plan.part_bytes as int;
        if front.len() > 0 {
            let before = front.last();
            assert(part_placed(parts[place - 1], place - 1, content, plan, algo));
            assert(place * size == (place - 1) * size + size) by (nonlinear_arith);
            assert(joined(front).len() == last.offset);
        } else {
            assert(0 * size == 0) by (nonlinear_arith);
        }
        assert(joined(parts) =~= content.take(last.offset + last.bytes@.len()));
    }
}

/// Batches keep the parts in order and lose none of them.
pub proof fn law_batches_keep_their_parts(
    batches: Seq<Seq<ExternalPackPart>>,
    batch: Seq<ExternalPackPart>,
)
    ensures
        flat_parts(batches.push(batch)) == flat_parts(batches) + batch,
        flat_parts(Seq::empty()) == Seq::<ExternalPackPart>::empty(),
{
    assert(batches.push(batch).drop_last() =~= batches);
}

} // verus!
