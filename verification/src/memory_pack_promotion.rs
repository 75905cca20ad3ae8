//! Staged promotion of validated push PACKs into memory storage.
//!
//! Reads, hashing and index conversion are complete before the backend is asked to install anything.
//! Promotion never changes refs, and the source quarantine stays as it is.

use crate::digest::{canonical_id, object_id};
use crate::object::{HashAlgo, ObjectId, ObjectKind, RepositoryId, TenantId};
use crate::pack_promotion::{
    binding_of, check_bindings, check_same_pack, convert_index, evidence_of, index_fits,
    index_memory, next_range, pack_of, same_pack, testify, trailer_agrees, BodyDigest,
    PromotionBinding, PromotionEvidence, PromotionScope, PromotionTarget, StoredPack,
    StoredPackMetadata,
};
use crate::push_metrics::ReceivePackLimits;
use crate::push_pack_validation::ValidatedPushPack;
use crate::push_prepared::PreparedPush;
use crate::push_quarantine::{
    answered_under, law_range_answers_its_bytes, reads_under, unreadable, PackQuarantine, QuarantineFence, QuarantineId, QuarantineSnapshot,
};
use vstd::prelude::*;

verus! {

/// Bounds of a memory promotion.
#[derive(Clone, Copy, Debug, PartialEq, Eq, Structural)]
pub struct MemoryPackPromotionLimits {
    /// Maximum PACK bytes.
    pub max_pack_bytes: u64,
    /// Maximum index bytes.
    pub max_index_bytes: u64,
    /// Maximum bytes of one read.
    pub range_chunk_bytes: usize,
}

impl MemoryPackPromotionLimits {
    /// The bounds may be used.
    pub open spec fn valid(self) -> bool {
        let hard = ReceivePackLimits::spec_hard_max();
        &&& 0 < self.max_pack_bytes <= hard.max_pack_bytes
        &&& 0 < self.max_index_bytes <= hard.max_metadata_memory_bytes
        &&& 0 < self.range_chunk_bytes <= hard.bytes_in_flight
    }

    /// Validate the bounds.
    pub fn validate(self) -> (result: Result<Self, MemoryPackPromotionError>)
        ensures
            result == if self.valid() {
                Ok::<Self, MemoryPackPromotionError>(self)
            } else {
                Err(MemoryPackPromotionError::InvalidLimits)
            },
    {
        let hard = ReceivePackLimits::hard_max();
        if self.max_pack_bytes == 0 || self.max_pack_bytes > hard.max_pack_bytes
            || self.max_index_bytes == 0 || self.max_index_bytes > hard.max_metadata_memory_bytes
            || self.range_chunk_bytes == 0 || self.range_chunk_bytes as u64
            > hard.bytes_in_flight {
            return Err(MemoryPackPromotionError::InvalidLimits);
        }
        Ok(self)
    }
}

/// Memory promotion failure.
#[derive(Clone, Copy, Debug, PartialEq, Eq, Structural)]
pub enum MemoryPackPromotionError {
    /// Limits are zero or above a ceiling.
    InvalidLimits,
    /// Bindings disagree.
    Binding,
    /// The repository generation changed.
    StaleGeneration,
    /// Stored content differs.
    Collision,
    /// A quarantine read failed.
    Quarantine,
    /// The bytes do not match their checksum.
    Checksum,
    /// Metadata exceeds its bound.
    MetadataLimit,
    /// A bounded buffer could not be reserved.
    Allocation,
    /// The backend failed.
    Backend,
}

/// Evidence that a PACK and its index are installed in memory.
#[derive(Debug)]
pub struct MemoryPackPromotionReceipt {
    evidence: PromotionEvidence,
}

impl MemoryPackPromotionReceipt {
    /// The evidence.
    pub closed spec fn spec_evidence(self) -> PromotionEvidence {
        self.evidence
    }

    /// Create a receipt.
    pub fn new(evidence: PromotionEvidence) -> (receipt: Self)
        ensures
            receipt.spec_evidence() == evidence,
    {
        MemoryPackPromotionReceipt { evidence }
    }

    /// Borrow the tenant.
    pub fn tenant(&self) -> (tenant: &TenantId)
        ensures
            *tenant == self.spec_evidence().tenant,
    {
        &self.evidence.tenant
    }

    /// Borrow the repository.
    pub fn repository(&self) -> (repository: &RepositoryId)
        ensures
            *repository == self.spec_evidence().repository,
    {
        &self.evidence.repository
    }

    /// Return the source quarantine.
    pub fn quarantine_id(&self) -> (id: QuarantineId)
        ensures
            id == self.spec_evidence().quarantine_id,
    {
        self.evidence.quarantine_id
    }

    /// Return the quarantine generation.
    pub fn quarantine_generation(&self) -> (generation: u64)
        ensures
            generation == self.spec_evidence().quarantine_generation,
    {
        self.evidence.quarantine_generation
    }

    /// Return the repository generation.
    pub fn repository_generation(&self) -> (generation: u64)
        ensures
            generation == self.spec_evidence().repository_generation,
    {
        self.evidence.repository_generation
    }

    /// Return the PACK checksum.
    pub fn pack_checksum(&self) -> (checksum: ObjectId)
        ensures
            checksum == self.spec_evidence().pack_checksum,
    {
        self.evidence.pack_checksum
    }

    /// Return the index checksum.
    pub fn index_checksum(&self) -> (checksum: ObjectId)
        ensures
            checksum == self.spec_evidence().index_checksum,
    {
        self.evidence.index_checksum
    }

    /// Return the prepared fingerprint.
    pub fn prepared_fingerprint(&self) -> (fingerprint: ObjectId)
        ensures
            fingerprint == self.spec_evidence().prepared_fingerprint,
    {
        self.evidence.prepared_fingerprint
    }

    /// Return the entry count.
    pub fn object_count(&self) -> (count: u32)
        ensures
            count == self.spec_evidence().object_count,
    {
        self.evidence.object_count
    }

    /// Return the PACK bytes.
    pub fn size_bytes(&self) -> (bytes: u64)
        ensures
            bytes == self.spec_evidence().size_bytes,
    {
        self.evidence.size_bytes
    }

    /// Return whether the same pack was already stored.
    pub fn deduplicated(&self) -> (deduplicated: bool)
        ensures
            deduplicated == self.spec_evidence().deduplicated,
    {
        self.evidence.deduplicated
    }
}

/// A promotion ready to be installed.
#[derive(Debug)]
pub struct MemoryPackPromotionStage {
    /// Whose promotion it is.
    pub scope: PromotionScope,
    /// The pack.
    pub pack: StoredPack,
}

/// Memory storage of promoted packs.
///
/// Bytes, index, object locations and an idempotency record are installed together or not at all.
pub trait MemoryPackPromotionBackend {
    /// The stages handed over so far.
    closed spec fn staged(&self) -> Seq<MemoryPackPromotionStage> {
        Seq::empty()
    }

    /// The last stage handed over was answered this way.
    closed spec fn answered(
        &self,
        stage: MemoryPackPromotionStage,
        answer: Result<MemoryPackPromotionReceipt, MemoryPackPromotionError>,
    ) -> bool {
        true
    }

    /// Install a stage.
    fn install_staged_push_pack(&mut self, stage: MemoryPackPromotionStage) -> (result: Result<
        MemoryPackPromotionReceipt,
        MemoryPackPromotionError,
    >)
        ensures
            final(self).staged() == old(self).staged().push(stage),
            final(self).answered(stage, result),
    ;
}

/// Packs kept in process, in the order in which they were installed.
#[derive(Debug)]
pub struct MemoryPackLedger {
    stages: Vec<MemoryPackPromotionStage>,
}

impl MemoryPackLedger {
    /// The packs.
    pub closed spec fn spec_stages(self) -> Seq<MemoryPackPromotionStage> {
        self.stages@
    }

    /// Start with no pack.
    pub fn new() -> (ledger: Self)
        ensures
            ledger.spec_stages() == Seq::<MemoryPackPromotionStage>::empty(),
    {
        MemoryPackLedger { stages: Vec::new() }
    }

    /// Borrow the packs.
    pub fn stages(&self) -> (stages: &[MemoryPackPromotionStage])
        ensures
            stages@ == self.spec_stages(),
    {
        self.stages.as_slice()
    }

    /// The repository has a pack of this checksum.
    pub open spec fn holds(
        stages: Seq<MemoryPackPromotionStage>,
        scope: PromotionScope,
    ) -> bool {
        exists|i: int| 0 <= i < stages.len() && same_pack((#[trigger] stages[i]).scope, scope)
    }
}

impl MemoryPackPromotionBackend for MemoryPackLedger {
    open spec fn staged(&self) -> Seq<MemoryPackPromotionStage> {
        self.spec_stages()
    }

    open spec fn answered(
        &self,
        stage: MemoryPackPromotionStage,
        answer: Result<MemoryPackPromotionReceipt, MemoryPackPromotionError>,
    ) -> bool {
        &&& answer is Ok
        &&& answer->Ok_0.spec_evidence() == evidence_of(
            stage.scope,
            stage.pack,
            MemoryPackLedger::holds(self.spec_stages().drop_last(), stage.scope),
        )
    }

    fn install_staged_push_pack(&mut self, stage: MemoryPackPromotionStage) -> (result: Result<
        MemoryPackPromotionReceipt,
        MemoryPackPromotionError,
    >)
        ensures
            result is Ok,
            result->Ok_0.spec_evidence() == evidence_of(
                stage.scope,
                stage.pack,
                MemoryPackLedger::holds(old(self).spec_stages(), stage.scope),
            ),
    {
        let ghost before = self.stages@;
        let mut known: bool = false;
        let mut at: usize = 0;
        while at < self.stages.len()
            invariant
                self.stages@ == before,
                at <= before.len(),
                known == exists|i: int|
                    0 <= i < at && same_pack((#[trigger] before[i]).scope, stage.scope),
            decreases before.len() - at,
        {
            let same: bool = check_same_pack(&self.stages[at].scope, &stage.scope);
            proof {
                if known {
                    let i = choose|i: int|
                        0 <= i < at && same_pack((#[trigger] before[i]).scope, stage.scope);
                    assert(0 <= i < at + 1 && same_pack(before[i].scope, stage.scope));
                }
                if same {
                    assert(same_pack(before[at as int].scope, stage.scope));
                }
            }
            known = known || same;
            at = at + 1;
        }
        let receipt = MemoryPackPromotionReceipt::new(testify(&stage.scope, &stage.pack, known));
        self.stages.push(stage);
        assert(self.stages@.drop_last() =~= before);
        Ok(receipt)
    }
}

/// Why a promotion cannot be staged, before any byte is read.
pub open spec fn memory_fault(
    prepared: PreparedPush,
    validated: ValidatedPushPack,
    snapshot: QuarantineSnapshot,
    fence: QuarantineFence,
    limits: MemoryPackPromotionLimits,
) -> Option<MemoryPackPromotionError> {
    if !limits.valid() {
        Some(MemoryPackPromotionError::InvalidLimits)
    } else {
        match binding_of(prepared, validated, snapshot, fence, limits.max_pack_bytes) {
            PromotionBinding::Unbound => Some(MemoryPackPromotionError::Binding),
            PromotionBinding::TooManyRows => Some(MemoryPackPromotionError::MetadataLimit),
            PromotionBinding::Bound(target) => if index_memory(validated.index@.len() as int)
                > limits.max_index_bytes || target.manifest.pack_bytes > usize::MAX {
                Some(MemoryPackPromotionError::MetadataLimit)
            } else if target.manifest.pack_bytes < target.manifest.hash_algo.spec_len() {
                Some(MemoryPackPromotionError::Binding)
            } else {
                None
            },
        }
    }
}

/// The target that the bindings agree on.
pub open spec fn memory_target(
    prepared: PreparedPush,
    validated: ValidatedPushPack,
    snapshot: QuarantineSnapshot,
    fence: QuarantineFence,
    limits: MemoryPackPromotionLimits,
) -> PromotionTarget {
    binding_of(prepared, validated, snapshot, fence, limits.max_pack_bytes)->Bound_0
}

/// The stage holds the target's checked bytes, its index and its scope.
pub open spec fn stage_of(
    stage: MemoryPackPromotionStage,
    prepared: PreparedPush,
    validated: ValidatedPushPack,
    fence: QuarantineFence,
    target: PromotionTarget,
    content: Seq<u8>,
) -> bool {
    let data = content.take(target.manifest.pack_bytes as int);
    &&& target.manifest.pack_bytes <= content.len()
    &&& stage.scope.fits(prepared, fence, target)
    &&& pack_of(stage.pack, target, validated.index@, data)
    &&& trailer_agrees(data, target.manifest.hash_algo, target.pack_checksum)
}

/// Read, check and convert a PACK, without installing anything.
pub fn stage_memory_push_pack<Q: PackQuarantine>(
    prepared: &PreparedPush,
    validated: &ValidatedPushPack,
    quarantine: &mut Q,
    fence: QuarantineFence,
    limits: MemoryPackPromotionLimits,
) -> (result: Result<MemoryPackPromotionStage, MemoryPackPromotionError>)
    ensures
        final(quarantine).content() == old(quarantine).content(),
        final(quarantine).steps() == old(quarantine).steps(),
        reads_under(fence, old(quarantine).ranges(), final(quarantine).ranges()),
        match memory_fault(*prepared, *validated, old(quarantine).described(), fence, limits) {
            Some(fault) => result == Err::<MemoryPackPromotionStage, MemoryPackPromotionError>(
                fault,
            ),
            None => {
                let target = memory_target(
                    *prepared,
                    *validated,
                    old(quarantine).described(),
                    fence,
                    limits,
                );
                match result {
                    Ok(stage) => stage_of(
                        stage,
                        *prepared,
                        *validated,
                        fence,
                        target,
                        old(quarantine).content(),
                    ) && answered_under::<Q>(
                        fence,
                        old(quarantine).content(),
                        0,
                        target.manifest.pack_bytes as int,
                    ),
                    Err(MemoryPackPromotionError::Quarantine) => unreadable::<Q>(fence),
                    Err(MemoryPackPromotionError::Checksum) => target.manifest.pack_bytes
                        <= old(quarantine).content().len() && !trailer_agrees(
                        old(quarantine).content().take(target.manifest.pack_bytes as int),
                        target.manifest.hash_algo,
                        target.pack_checksum,
                    ),
                    Err(_) => false,
                }
            },
        },
{
    if let Err(error) = limits.validate() {
        return Err(error);
    }
    let snapshot = quarantine.snapshot();
    let target = match check_bindings(prepared, validated, &snapshot, fence, limits.max_pack_bytes) {
        PromotionBinding::Bound(target) => target,
        PromotionBinding::Unbound => {
            return Err(MemoryPackPromotionError::Binding);
        },
        PromotionBinding::TooManyRows => {
            return Err(MemoryPackPromotionError::MetadataLimit);
        },
    };
    let total: u64 = target.manifest.pack_bytes;
    if !index_fits(validated.index.len(), limits.max_index_bytes) || total > usize::MAX as u64 {
        return Err(MemoryPackPromotionError::MetadataLimit);
    }
    let mut digest = match BodyDigest::new(target.manifest.hash_algo, total) {
        Some(digest) => digest,
        None => {
            return Err(MemoryPackPromotionError::Binding);
        },
    };
    let ghost content = quarantine.content();
    let mut data: Vec<u8> = Vec::new();
    let mut offset: u64 = 0;
    while offset < total
        invariant
            limits.valid(),
            content == old(quarantine).content(),
            quarantine.content() == content,
            quarantine.steps() == old(quarantine).steps(),
            reads_under(fence, old(quarantine).ranges(), quarantine.ranges()),
            offset <= total,
            offset == data@.len(),
            offset <= content.len(),
            data@ == content.take(offset as int),
            answered_under::<Q>(fence, content, 0, offset as int),
            digest.wf(),
            digest.seen() == data@,
            digest.spec_total() == total,
            digest.spec_algo() == target.manifest.hash_algo,
            memory_fault(
                *prepared,
                *validated,
                old(quarantine).described(),
                fence,
                limits,
            ) is None,
        decreases total - offset,
    {
        let length: usize = next_range(total, offset, limits.range_chunk_bytes);
        let bytes: Vec<u8> = match quarantine.read_range(fence, offset, length) {
            Ok(bytes) => bytes,
            Err(_) => {
                return Err(MemoryPackPromotionError::Quarantine);
            },
        };
        if bytes.len() != length {
            return Err(MemoryPackPromotionError::Quarantine);
        }
        proof {
            law_range_answers_its_bytes::<Q>(fence, content, offset, length, bytes);
        }
        digest.update(bytes.as_slice());
        crate::bytes::append_bytes(&mut data, bytes.as_slice());
        assert(content.take(offset as int) + bytes@ =~= content.take(offset + length));
        offset = offset + length as u64;
    }
    if !digest.finish(target.pack_checksum) {
        return Err(MemoryPackPromotionError::Checksum);
    }
    let index = convert_index(&validated.index);
    let pack = StoredPack {
        metadata: StoredPackMetadata {
            pack_checksum: target.pack_checksum,
            index_checksum: target.index_checksum,
            object_count: target.object_count,
            size_bytes: total,
            storage_order: 0,
        },
        data,
        index,
    };
    Ok(MemoryPackPromotionStage { scope: PromotionScope::of(prepared, fence, target), pack })
}

/// Stage one validated push PACK and install it in memory.
///
/// No ref, reflog, event or quarantine is changed. A failure leaves the source quarantine sealed.
pub fn promote_memory_push_pack<B: MemoryPackPromotionBackend, Q: PackQuarantine>(
    backend: &mut B,
    prepared: &PreparedPush,
    validated: &ValidatedPushPack,
    quarantine: &mut Q,
    fence: QuarantineFence,
    limits: MemoryPackPromotionLimits,
) -> (result: Result<MemoryPackPromotionReceipt, MemoryPackPromotionError>)
    ensures
        final(quarantine).content() == old(quarantine).content(),
        final(quarantine).steps() == old(quarantine).steps(),
        reads_under(fence, old(quarantine).ranges(), final(quarantine).ranges()),
        match memory_fault(*prepared, *validated, old(quarantine).described(), fence, limits) {
            Some(fault) => result == Err::<MemoryPackPromotionReceipt, MemoryPackPromotionError>(
                fault,
            ) && *final(backend) == *old(backend),
            None => {
                ||| *final(backend) == *old(backend) && (result == Err::<
                    MemoryPackPromotionReceipt,
                    MemoryPackPromotionError,
                >(MemoryPackPromotionError::Quarantine) && unreadable::<Q>(fence) || result == Err::<
                    MemoryPackPromotionReceipt,
                    MemoryPackPromotionError,
                >(MemoryPackPromotionError::Checksum) && !trailer_agrees(
                    old(quarantine).content().take(
                        memory_target(
                            *prepared,
                            *validated,
                            old(quarantine).described(),
                            fence,
                            limits,
                        ).manifest.pack_bytes as int,
                    ),
                    memory_target(
                        *prepared,
                        *validated,
                        old(quarantine).described(),
                        fence,
                        limits,
                    ).manifest.hash_algo,
                    memory_target(
                        *prepared,
                        *validated,
                        old(quarantine).described(),
                        fence,
                        limits,
                    ).pack_checksum,
                ))
                ||| {
                    let stage = final(backend).staged().last();
                    &&& final(backend).staged() == old(backend).staged().push(stage)
                    &&& stage_of(
                        stage,
                        *prepared,
                        *validated,
                        fence,
                        memory_target(
                            *prepared,
                            *validated,
                            old(quarantine).described(),
                            fence,
                            limits,
                        ),
                        old(quarantine).content(),
                    )
                    &&& answered_under::<Q>(
                        fence,
                        old(quarantine).content(),
                        0,
                        memory_target(
                            *prepared,
                            *validated,
                            old(quarantine).described(),
                            fence,
                            limits,
                        ).manifest.pack_bytes as int,
                    )
                    &&& final(backend).answered(stage, result)
                }
            },
        },
        result is Ok ==> final(backend).staged().len() == old(backend).staged().len() + 1,
{
    let stage = stage_memory_push_pack(prepared, validated, quarantine, fence, limits)?;
    backend.install_staged_push_pack(stage)
}

/// Compute the canonical identity of an object.
pub fn canonical_promoted_object_id(
    kind: ObjectKind,
    data: &[u8],
    hash_algo: HashAlgo,
) -> (result: Result<ObjectId, MemoryPackPromotionError>)
    ensures
        result == Ok::<ObjectId, MemoryPackPromotionError>(canonical_id(hash_algo, kind, data@)),
{
    Ok(object_id(kind, data, hash_algo))
}

} // verus!
