//! Private storage of one received PACK until it is published or discarded.

use crate::bytes::{be_bytes, copy_range, append_bytes, push_be};
use crate::object::{HashAlgo, ObjectId, RepositoryId, TenantId};
use vstd::prelude::*;

verus! {

/// Quarantine identity.
#[derive(Clone, Copy, Debug, PartialEq, Eq, Structural)]
pub struct QuarantineId {
    /// Random 128-bit name.
    pub value: u128,
}

impl QuarantineId {
    /// The sixteen bytes of the identity.
    pub open spec fn spec_bytes(self) -> Seq<u8> {
        be_bytes(self.value as int, 16)
    }

    /// Return the sixteen bytes of the identity.
    pub fn to_bytes(self) -> (bytes: Vec<u8>)
        ensures
            bytes@ == self.spec_bytes(),
    {
        let mut bytes: Vec<u8> = Vec::new();
        push_be(&mut bytes, self.value, 16);
        assert(bytes@ =~= self.spec_bytes());
        bytes
    }
}

/// Capability for one generation of a quarantine.
#[derive(Clone, Copy, Debug, PartialEq, Eq, Structural)]
pub struct QuarantineFence {
    /// Quarantine identity.
    pub id: QuarantineId,
    /// Generation the capability was issued for.
    pub generation: u64,
}

/// Quarantine lifecycle.
#[derive(Clone, Copy, Debug, PartialEq, Eq, Structural)]
pub enum QuarantineState {
    /// Bytes may be appended.
    Receiving,
    /// The PACK is sealed.
    Validated,
    /// The PACK was promoted.
    Promoted,
    /// The quarantine was discarded.
    Discarded,
}

/// Description of a sealed PACK.
#[derive(Clone, Copy, Debug, PartialEq, Eq, Structural)]
pub struct QuarantineManifest {
    /// Hash algorithm.
    pub hash_algo: HashAlgo,
    /// Complete PACK bytes.
    pub pack_bytes: u64,
    /// Entry count.
    pub object_count: u32,
    /// Trailer checksum.
    pub pack_checksum: Option<ObjectId>,
    /// Prepared metadata bytes.
    pub metadata_bytes: u64,
    /// Whether no entry needs a base from outside.
    pub self_contained: bool,
    /// Checksum of the validated index.
    pub index_checksum: Option<ObjectId>,
}

/// Point-in-time description of a quarantine.
#[derive(Debug)]
pub struct QuarantineSnapshot {
    /// Identity.
    pub id: QuarantineId,
    /// Current generation.
    pub generation: u64,
    /// Owning tenant.
    pub tenant: TenantId,
    /// Owning repository.
    pub repository: RepositoryId,
    /// Lifecycle state.
    pub state: QuarantineState,
    /// Bytes stored.
    pub bytes: u64,
    /// Manifest of a sealed PACK.
    pub manifest: Option<QuarantineManifest>,
}

/// Evidence that a PACK was completely validated.
#[derive(Clone, Copy, Debug, PartialEq, Eq, Structural)]
pub struct QuarantineIndexAttestation {
    /// Trailer checksum.
    pub pack_checksum: ObjectId,
    /// Checksum of the validated index.
    pub index_checksum: ObjectId,
    /// Entry count.
    pub object_count: u32,
    /// Whether no entry needs a base from outside.
    pub self_contained: bool,
    /// Whether every entry was validated.
    pub validation_complete: bool,
}

impl QuarantineIndexAttestation {
    /// Attest a completely validated index.
    pub fn validated(
        pack_checksum: ObjectId,
        index_checksum: ObjectId,
        object_count: u32,
        self_contained: bool,
    ) -> (attestation: Self)
        ensures
            attestation == (QuarantineIndexAttestation {
                pack_checksum,
                index_checksum,
                object_count,
                self_contained,
                validation_complete: true,
            }),
    {
        QuarantineIndexAttestation {
            pack_checksum,
            index_checksum,
            object_count,
            self_contained,
            validation_complete: true,
        }
    }
}

/// A quarantine operation failed.
#[derive(Clone, Copy, Debug, PartialEq, Eq, Structural)]
pub struct QuarantineError;

/// A step that changed a quarantine's lifecycle.
pub enum QuarantineStep {
    /// The PACK was sealed.
    Sealed {
        /// The fence given.
        fence: QuarantineFence,
        /// The PACK checksum.
        checksum: ObjectId,
        /// The manifest.
        manifest: QuarantineManifest,
        /// The fence afterwards.
        sealed: QuarantineFence,
    },
    /// A validation was attested.
    Attested {
        /// The fence given.
        fence: QuarantineFence,
        /// The attestation.
        attestation: QuarantineIndexAttestation,
        /// The fence afterwards.
        attested: QuarantineFence,
    },
}

/// Storage of one quarantined PACK.
///
/// A range read returns exactly the stored bytes of that range, and never changes them.
pub trait PackQuarantine {
    /// Every byte stored.
    closed spec fn content(&self) -> Seq<u8> {
        Seq::empty()
    }

    /// The quarantine's description.
    closed spec fn described(&self) -> QuarantineSnapshot {
        vstd::pervasive::arbitrary()
    }

    /// The lifecycle steps taken so far.
    closed spec fn steps(&self) -> Seq<QuarantineStep> {
        Seq::empty()
    }

    /// The reads asked for so far: under which fence, from which offset on, and how many bytes.
    closed spec fn ranges(&self) -> Seq<(QuarantineFence, u64, usize)> {
        Seq::empty()
    }

    /// The appends asked for so far: under which fence, at which offset, and which bytes.
    closed spec fn writes(&self) -> Seq<(QuarantineFence, u64, Seq<u8>)> {
        Seq::empty()
    }

    /// A read of `length` bytes from `offset` on may be answered so.
    closed spec fn reads(
        fence: QuarantineFence,
        offset: u64,
        length: usize,
        answer: Result<Vec<u8>, QuarantineError>,
    ) -> bool {
        true
    }

    /// A validation attestation may be answered so.
    closed spec fn attests(
        fence: QuarantineFence,
        attestation: QuarantineIndexAttestation,
        answer: Result<QuarantineFence, QuarantineError>,
    ) -> bool {
        true
    }

    /// An append may be answered so.
    closed spec fn appends(
        fence: QuarantineFence,
        offset: u64,
        bytes: Seq<u8>,
        answer: Result<u64, QuarantineError>,
    ) -> bool {
        true
    }

    /// A seal may be answered so.
    closed spec fn seals(
        fence: QuarantineFence,
        manifest: QuarantineManifest,
        answer: Result<QuarantineFence, QuarantineError>,
    ) -> bool {
        true
    }

    /// Describe the quarantine.
    fn snapshot(&self) -> (snapshot: QuarantineSnapshot)
        ensures
            snapshot == self.described(),
    ;

    /// Read `length` stored bytes from `offset` on.
    fn read_range(
        &mut self,
        fence: QuarantineFence,
        offset: u64,
        length: usize,
    ) -> (result: Result<Vec<u8>, QuarantineError>)
        ensures
            Self::reads(fence, offset, length, result),
            final(self).content() == old(self).content(),
            final(self).steps() == old(self).steps(),
            final(self).ranges() == old(self).ranges().push((fence, offset, length)),
            final(self).writes() == old(self).writes(),
            result is Ok && result->Ok_0@.len() == length ==> offset + length <= old(self).content().len() && result->Ok_0@ == old(self).content().subrange(
                offset as int,
                offset + length,
            ),
    ;

    /// Append bytes at `offset` and return the stored length.
    fn append(
        &mut self,
        fence: QuarantineFence,
        offset: u64,
        bytes: &[u8],
    ) -> (result: Result<u64, QuarantineError>)
        ensures
            Self::appends(fence, offset, bytes@, result),
            final(self).steps() == old(self).steps(),
            final(self).ranges() == old(self).ranges(),
            final(self).writes() == old(self).writes().push((fence, offset, bytes@)),
            result is Ok && result->Ok_0 == offset + bytes@.len() ==> old(self).content().len()
                == offset && final(self).content() == old(self).content() + bytes@,
    ;

    /// Seal the PACK under a manifest.
    fn finish(
        &mut self,
        fence: QuarantineFence,
        checksum: ObjectId,
        manifest: QuarantineManifest,
    ) -> (result: Result<QuarantineFence, QuarantineError>)
        ensures
            Self::seals(fence, manifest, result),
            final(self).content() == old(self).content(),
            final(self).ranges() == old(self).ranges(),
            final(self).writes() == old(self).writes(),
            final(self).steps() == match result {
                Ok(sealed) => old(self).steps().push(
                    QuarantineStep::Sealed { fence, checksum, manifest, sealed },
                ),
                Err(_) => old(self).steps(),
            },
    ;

    /// Store a validation attestation.
    fn attest_index(
        &mut self,
        fence: QuarantineFence,
        attestation: QuarantineIndexAttestation,
    ) -> (result: Result<QuarantineFence, QuarantineError>)
        ensures
            Self::attests(fence, attestation, result),
            final(self).content() == old(self).content(),
            final(self).ranges() == old(self).ranges(),
            final(self).writes() == old(self).writes(),
            final(self).steps() == match result {
                Ok(attested) => old(self).steps().push(
                    QuarantineStep::Attested { fence, attestation, attested },
                ),
                Err(_) => old(self).steps(),
            },
    ;
}

/// Every read since `before` was asked for under the fence.
pub open spec fn reads_under(
    fence: QuarantineFence,
    before: Seq<(QuarantineFence, u64, usize)>,
    after: Seq<(QuarantineFence, u64, usize)>,
) -> bool {
    &&& before.len() <= after.len()
    &&& forall|i: int|
        0 <= i < after.len() ==> if i < before.len() {
            #[trigger] after[i] == before[i]
        } else {
            after[i].0 == fence
        }
}

/// Every append since `before` was asked for under the fence.
pub open spec fn writes_under(
    fence: QuarantineFence,
    before: Seq<(QuarantineFence, u64, Seq<u8>)>,
    after: Seq<(QuarantineFence, u64, Seq<u8>)>,
) -> bool {
    &&& before.len() <= after.len()
    &&& forall|i: int|
        0 <= i < after.len() ==> if i < before.len() {
            #[trigger] after[i] == before[i]
        } else {
            after[i].0 == fence
        }
}

/// This byte of the content was read under the fence.
pub open spec fn byte_answered<Q: PackQuarantine>(
    fence: QuarantineFence,
    content: Seq<u8>,
    i: int,
) -> bool {
    exists|offset: u64, length: usize, bytes: Vec<u8>| #[trigger]
        Q::reads(fence, offset, length, Ok(bytes)) && range_holds(content, offset, length, bytes@, i)
}

/// The bytes are this range of the content, and byte `i` lies in it.
pub open spec fn range_holds(
    content: Seq<u8>,
    offset: u64,
    length: usize,
    bytes: Seq<u8>,
    i: int,
) -> bool {
    &&& offset <= i < offset + length
    &&& offset + length <= content.len()
    &&& bytes == content.subrange(offset as int, offset + length)
}

/// Every byte of this part of the content was read under the fence.
pub open spec fn answered_under<Q: PackQuarantine>(
    fence: QuarantineFence,
    content: Seq<u8>,
    from: int,
    to: int,
) -> bool {
    forall|i: int| from <= i < to ==> #[trigger] byte_answered::<Q>(fence, content, i)
}

/// One answered range answers each of its bytes.
pub proof fn law_range_answers_its_bytes<Q: PackQuarantine>(
    fence: QuarantineFence,
    content: Seq<u8>,
    offset: u64,
    length: usize,
    bytes: Vec<u8>,
)
    requires
        Q::reads(fence, offset, length, Ok(bytes)),
        offset + length <= content.len(),
        bytes@ == content.subrange(offset as int, offset + length),
    ensures
        answered_under::<Q>(fence, content, offset as int, offset + length),
{
    assert forall|i: int| offset <= i < offset + length implies #[trigger] byte_answered::<Q>(
        fence,
        content,
        i,
    ) by {
        assert(range_holds(content, offset, length, bytes@, i));
    }
}

/// The quarantine answers some read under this fence with a failure or with another length than
/// asked for.
pub open spec fn unreadable<Q: PackQuarantine>(fence: QuarantineFence) -> bool {
    exists|
        offset: u64,
        length: usize,
        answer: Result<Vec<u8>, QuarantineError>,
    | #[trigger]
        Q::reads(fence, offset, length, answer) && (answer matches Ok(bytes) ==> bytes@.len()
            != length)
}

/// The quarantine answers some append under this fence with a failure or with another length than
/// was reached.
pub open spec fn unwritable<Q: PackQuarantine>(fence: QuarantineFence) -> bool {
    exists|
        offset: u64,
        bytes: Seq<u8>,
        answer: Result<u64, QuarantineError>,
    | #[trigger]
        Q::appends(fence, offset, bytes, answer) && (answer matches Ok(length) ==> length != offset
            + bytes.len())
}

/// The quarantine answers some seal under this fence with a failure.
pub open spec fn unsealed<Q: PackQuarantine>(fence: QuarantineFence) -> bool {
    exists|
        manifest: QuarantineManifest,
        answer: Result<QuarantineFence, QuarantineError>,
    | #[trigger] Q::seals(fence, manifest, answer) && answer is Err
}

/// The quarantine answers some attestation under this fence with a failure.
pub open spec fn unattested<Q: PackQuarantine>(fence: QuarantineFence) -> bool {
    exists|
        attestation: QuarantineIndexAttestation,
        answer: Result<QuarantineFence, QuarantineError>,
    | #[trigger] Q::attests(fence, attestation, answer) && answer is Err
}

/// Quarantine held in memory.
pub struct MemoryPackQuarantine {
    id: QuarantineId,
    generation: u64,
    tenant: TenantId,
    repository: RepositoryId,
    state: QuarantineState,
    stored: Vec<u8>,
    manifest: Option<QuarantineManifest>,
    steps: Ghost<Seq<QuarantineStep>>,
    ranges: Ghost<Seq<(QuarantineFence, u64, usize)>>,
    writes: Ghost<Seq<(QuarantineFence, u64, Seq<u8>)>>,
}

impl MemoryPackQuarantine {
    /// Create an empty quarantine and the fence of its first generation.
    pub fn new(id: QuarantineId, tenant: TenantId, repository: RepositoryId) -> (created: (
        Self,
        QuarantineFence,
    ))
        ensures
            created.0.content() == Seq::<u8>::empty(),
            created.0.steps() == Seq::<QuarantineStep>::empty(),
            created.0.described() == (QuarantineSnapshot {
                id,
                generation: 1,
                tenant,
                repository,
                state: QuarantineState::Receiving,
                bytes: 0,
                manifest: None,
            }),
            created.1 == (QuarantineFence { id, generation: 1 }),
    {
        (
            MemoryPackQuarantine {
                id,
                generation: 1,
                tenant,
                repository,
                state: QuarantineState::Receiving,
                stored: Vec::new(),
                manifest: None,
                steps: Ghost(Seq::empty()),
                ranges: Ghost(Seq::empty()),
                writes: Ghost(Seq::empty()),
            },
            QuarantineFence { id, generation: 1 },
        )
    }

    /// The fence is of the current generation.
    pub open spec fn spec_admits(self, fence: QuarantineFence) -> bool {
        fence.id == self.described().id && fence.generation == self.described().generation
    }

    fn admits(&self, fence: QuarantineFence) -> (admitted: bool)
        ensures
            admitted == self.spec_admits(fence),
    {
        fence.id == self.id && fence.generation == self.generation
    }
}

impl PackQuarantine for MemoryPackQuarantine {
    closed spec fn content(&self) -> Seq<u8> {
        self.stored@
    }

    closed spec fn steps(&self) -> Seq<QuarantineStep> {
        self.steps@
    }

    closed spec fn ranges(&self) -> Seq<(QuarantineFence, u64, usize)> {
        self.ranges@
    }

    closed spec fn writes(&self) -> Seq<(QuarantineFence, u64, Seq<u8>)> {
        self.writes@
    }

    closed spec fn described(&self) -> QuarantineSnapshot {
        QuarantineSnapshot {
            id: self.id,
            generation: self.generation,
            tenant: self.tenant,
            repository: self.repository,
            state: self.state,
            bytes: self.stored@.len() as u64,
            manifest: self.manifest,
        }
    }

    fn snapshot(&self) -> QuarantineSnapshot {
        QuarantineSnapshot {
            id: self.id,
            generation: self.generation,
            tenant: self.tenant.clone(),
            repository: self.repository.clone(),
            state: self.state,
            bytes: self.stored.len() as u64,
            manifest: self.manifest,
        }
    }

    fn read_range(
        &mut self,
        fence: QuarantineFence,
        offset: u64,
        length: usize,
    ) -> (result: Result<Vec<u8>, QuarantineError>)
        ensures
            final(self).described() == old(self).described(),
            result is Ok <==> old(self).spec_admits(fence) && offset + length
                <= old(self).content().len(),
            result is Ok ==> result->Ok_0@.len() == length,
    {
        self.ranges = Ghost(self.ranges@.push((fence, offset, length)));
        if !self.admits(fence) || offset > self.stored.len() as u64 {
            return Err(QuarantineError);
        }
        let start: usize = offset as usize;
        if length > self.stored.len() - start {
            return Err(QuarantineError);
        }
        Ok(copy_range(self.stored.as_slice(), start, start + length))
    }

    fn append(
        &mut self,
        fence: QuarantineFence,
        offset: u64,
        bytes: &[u8],
    ) -> (result: Result<u64, QuarantineError>)
        ensures
            result is Ok <==> old(self).spec_admits(fence) && old(self).described().state
                == QuarantineState::Receiving && offset == old(self).content().len(),
            match result {
                Ok(length) => length == offset + bytes@.len() && final(self).content()
                    == old(self).content() + bytes@ && final(self).described() == (
                QuarantineSnapshot { bytes: length, ..old(self).described() }),
                Err(_) => final(self).described() == old(self).described()
                    && final(self).content() == old(self).content(),
            },
    {
        self.writes = Ghost(self.writes@.push((fence, offset, bytes@)));
        if !self.admits(fence) || self.state != QuarantineState::Receiving || offset
            != self.stored.len() as u64 {
            return Err(QuarantineError);
        }
        append_bytes(&mut self.stored, bytes);
        Ok(self.stored.len() as u64)
    }

    fn finish(
        &mut self,
        fence: QuarantineFence,
        checksum: ObjectId,
        manifest: QuarantineManifest,
    ) -> (result: Result<QuarantineFence, QuarantineError>)
        ensures
            result is Ok <==> old(self).spec_admits(fence) && old(self).described().state
                == QuarantineState::Receiving && manifest.pack_bytes == old(self).content().len()
                && manifest.pack_checksum == Some(checksum) && fence.generation < u64::MAX,
            match result {
                Ok(sealed) => sealed == (QuarantineFence {
                    id: fence.id,
                    generation: (fence.generation + 1) as u64,
                }) && final(self).described() == (QuarantineSnapshot {
                    generation: sealed.generation,
                    state: QuarantineState::Validated,
                    manifest: Some(manifest),
                    ..old(self).described()
                }),
                Err(_) => *final(self) == *old(self),
            },
    {
        if !self.admits(fence) || self.state != QuarantineState::Receiving || manifest.pack_bytes
            != self.stored.len() as u64 || manifest.pack_checksum != Some(checksum)
            || self.generation == u64::MAX {
            return Err(QuarantineError);
        }
        self.state = QuarantineState::Validated;
        self.manifest = Some(manifest);
        self.generation = self.generation + 1;
        let sealed = QuarantineFence { id: self.id, generation: self.generation };
        self.steps =
        Ghost(self.steps@.push(QuarantineStep::Sealed { fence, checksum, manifest, sealed }));
        Ok(sealed)
    }

    fn attest_index(
        &mut self,
        fence: QuarantineFence,
        attestation: QuarantineIndexAttestation,
    ) -> (result: Result<QuarantineFence, QuarantineError>)
        ensures
            result is Ok <==> old(self).spec_admits(fence) && old(self).described().state
                == QuarantineState::Validated && old(self).described().manifest is Some
                && fence.generation < u64::MAX,
            match result {
                Ok(attested) => attested == (QuarantineFence {
                    id: fence.id,
                    generation: (fence.generation + 1) as u64,
                }) && final(self).described() == (QuarantineSnapshot {
                    generation: attested.generation,
                    manifest: Some(
                        (QuarantineManifest {
                            self_contained: attestation.self_contained,
                            index_checksum: Some(attestation.index_checksum),
                            ..old(self).described().manifest->0
                        }),
                    ),
                    ..old(self).described()
                }),
                Err(_) => *final(self) == *old(self),
            },
    {
        if !self.admits(fence) || self.state != QuarantineState::Validated || self.generation
            == u64::MAX {
            return Err(QuarantineError);
        }
        match self.manifest {
            Some(manifest) => {
                self.manifest = Some(
                    QuarantineManifest {
                        self_contained: attestation.self_contained,
                        index_checksum: Some(attestation.index_checksum),
                        ..manifest
                    },
                );
                self.generation = self.generation + 1;
                let attested = QuarantineFence { id: self.id, generation: self.generation };
                self.steps =
                Ghost(self.steps@.push(QuarantineStep::Attested { fence, attestation, attested }));
                Ok(attested)
            },
            None => Err(QuarantineError),
        }
    }
}

} // verus!
