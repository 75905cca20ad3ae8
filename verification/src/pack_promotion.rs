//! What every promotion of a validated PACK shares: the bindings that must agree, the checks of the
//! bytes, and the index that is stored beside them.

use crate::bytes::{append_bytes, copy_range, same_bytes};
use crate::digest::{hashed_id, StreamHasher};
use crate::object::{HashAlgo, ObjectId, ObjectKind, RepositoryId, TenantId};
use crate::oid_map::OidMap;
use crate::push_pack_validation::{PushPackIndexRow, ValidatedPushPack};
use crate::push_parallel_validation::rows_distinct;
use crate::push_prepared::PreparedPush;
use crate::push_quarantine::{
    QuarantineFence, QuarantineId, QuarantineManifest, QuarantineSnapshot, QuarantineState,
};
use std::collections::HashMap;
use vstd::prelude::*;

verus! {

broadcast use vstd::std_specs::hash::group_hash_axioms;

/// Bookkeeping bytes of one index row.
pub const INDEX_ROW_OVERHEAD: u64 = 96;

/// One stored index row.
#[derive(Clone, Copy, Debug, PartialEq, Eq, Structural)]
pub struct PackObjectIndex {
    /// Object.
    pub oid: ObjectId,
    /// Kind.
    pub kind: ObjectKind,
    /// Entry offset.
    pub offset: u64,
    /// Object size.
    pub size: u64,
    /// Entry bytes.
    pub compressed_size: u64,
}

/// Metadata of a stored pack.
#[derive(Clone, Copy, Debug, PartialEq, Eq, Structural)]
pub struct StoredPackMetadata {
    /// Trailing checksum.
    pub pack_checksum: ObjectId,
    /// Checksum of the validated index.
    pub index_checksum: ObjectId,
    /// Entry count.
    pub object_count: u32,
    /// Complete size.
    pub size_bytes: u64,
    /// Storage order, assigned on installation.
    pub storage_order: u64,
}

/// A pack to be stored.
#[derive(Debug)]
pub struct StoredPack {
    /// Metadata.
    pub metadata: StoredPackMetadata,
    /// Complete bytes, empty where they are stored elsewhere.
    pub data: Vec<u8>,
    /// Index.
    pub index: Vec<PackObjectIndex>,
}

/// The stored row of a validated row.
pub open spec fn stored_row(row: PushPackIndexRow) -> PackObjectIndex {
    PackObjectIndex {
        oid: row.oid,
        kind: row.kind,
        offset: row.entry.offset,
        size: row.resolved_size,
        compressed_size: row.entry.length,
    }
}

/// The stored index of a validated index.
pub open spec fn stored_index(rows: Seq<PushPackIndexRow>) -> Seq<PackObjectIndex> {
    rows.map_values(|row: PushPackIndexRow| stored_row(row))
}

/// Convert a validated index.
pub fn convert_index(rows: &Vec<PushPackIndexRow>) -> (index: Vec<PackObjectIndex>)
    ensures
        index@ == stored_index(rows@),
{
    let mut index: Vec<PackObjectIndex> = Vec::new();
    let mut at: usize = 0;
    while at < rows.len()
        invariant
            at <= rows@.len(),
            index@.len() == at,
            forall|i: int| 0 <= i < at ==> #[trigger] index@[i] == stored_row(rows@[i]),
        decreases rows.len() - at,
    {
        let row = rows[at];
        index.push(
            PackObjectIndex {
                oid: row.oid,
                kind: row.kind,
                offset: row.entry.offset,
                size: row.resolved_size,
                compressed_size: row.entry.length,
            },
        );
        at = at + 1;
    }
    assert(index@ =~= stored_index(rows@));
    index
}

/// Check that no two rows share an object or an offset.
pub fn check_distinct(rows: &Vec<PushPackIndexRow>) -> (distinct: bool)
    ensures
        distinct == rows_distinct(rows@),
{
    let mut oids = OidMap::new();
    let mut offsets: HashMap<u64, usize> = HashMap::new();
    let mut at: usize = 0;
    while at < rows.len()
        invariant
            at <= rows@.len(),
            forall|i: int, j: int|
                #![trigger rows@[i], rows@[j]]
                0 <= i < j < at ==> rows@[i].entry.offset != rows@[j].entry.offset && rows@[i].oid
                    != rows@[j].oid,
            forall|oid: ObjectId| #[trigger]
                oids@.dom().contains(oid) <==> exists|i: int|
                    0 <= i < at && (#[trigger] rows@[i]).oid == oid,
            forall|offset: u64| #[trigger]
                offsets@.contains_key(offset) <==> exists|i: int|
                    0 <= i < at && (#[trigger] rows@[i]).entry.offset == offset,
        decreases rows.len() - at,
    {
        let row = rows[at];
        let ghost oids_before = oids@;
        let ghost offsets_before = offsets@;
        let known: bool = offsets.contains_key(&row.entry.offset);
        if known || !oids.insert_new(row.oid, 0) {
            proof {
                if known {
                    let i = choose|i: int|
                        0 <= i < at && (#[trigger] rows@[i]).entry.offset == row.entry.offset;
                    assert(rows@[i].entry.offset == rows@[at as int].entry.offset);
                } else {
                    let i = choose|i: int| 0 <= i < at && (#[trigger] rows@[i]).oid == row.oid;
                    assert(rows@[i].oid == rows@[at as int].oid);
                }
                assert(!rows_distinct(rows@));
            }
            return false;
        }
        let _earlier = offsets.insert(row.entry.offset, at);
        proof {
            assert(rows@[at as int] == row);
            assert forall|oid: ObjectId| #[trigger]
                oids@.dom().contains(oid) <==> exists|i: int|
                    0 <= i < at + 1 && (#[trigger] rows@[i]).oid == oid by {
                if oids_before.dom().contains(oid) {
                    let i = choose|i: int| 0 <= i < at && (#[trigger] rows@[i]).oid == oid;
                    assert(0 <= i < at + 1 && rows@[i].oid == oid);
                }
                if exists|i: int| 0 <= i < at + 1 && (#[trigger] rows@[i]).oid == oid {
                    let i = choose|i: int| 0 <= i < at + 1 && (#[trigger] rows@[i]).oid == oid;
                    if i < at {
                        assert(oids_before.dom().contains(oid));
                    }
                }
            }
            assert forall|offset: u64| #[trigger]
                offsets@.contains_key(offset) <==> exists|i: int|
                    0 <= i < at + 1 && (#[trigger] rows@[i]).entry.offset == offset by {
                if offsets_before.contains_key(offset) {
                    let i = choose|i: int|
                        0 <= i < at && (#[trigger] rows@[i]).entry.offset == offset;
                    assert(0 <= i < at + 1 && rows@[i].entry.offset == offset);
                }
                if exists|i: int| 0 <= i < at + 1 && (#[trigger] rows@[i]).entry.offset == offset {
                    let i = choose|i: int|
                        0 <= i < at + 1 && (#[trigger] rows@[i]).entry.offset == offset;
                    if i < at {
                        assert(offsets_before.contains_key(offset));
                    }
                }
            }
        }
        at = at + 1;
    }
    true
}

/// Bytes that a converted index takes.
pub open spec fn index_memory(rows: int) -> int {
    rows * (INDEX_ROW_OVERHEAD + vstd::layout::size_of::<PackObjectIndex>())
}

/// Return whether a converted index stays within a bound.
pub fn index_fits(rows: usize, maximum: u64) -> (fits: bool)
    ensures
        fits == (index_memory(rows as int) <= maximum),
{
    let per_row: u128 = INDEX_ROW_OVERHEAD as u128 + std::mem::size_of::<PackObjectIndex>() as u128;
    match (rows as u128).checked_mul(per_row) {
        Some(bytes) => bytes <= maximum as u128,
        None => false,
    }
}

/// What a bound promotion works on.
#[derive(Clone, Copy, Debug, PartialEq, Eq, Structural)]
pub struct PromotionTarget {
    /// Manifest of the sealed PACK.
    pub manifest: QuarantineManifest,
    /// Trailing checksum.
    pub pack_checksum: ObjectId,
    /// Checksum of the validated index.
    pub index_checksum: ObjectId,
    /// Entry count.
    pub object_count: u32,
}

/// Outcome of checking the bindings.
#[derive(Clone, Copy, Debug, PartialEq, Eq, Structural)]
pub enum PromotionBinding {
    /// Everything agrees.
    Bound(PromotionTarget),
    /// Something disagrees.
    Unbound,
    /// There are more rows than a PACK can count.
    TooManyRows,
}

/// Two index lists are the same.
fn same_index(left: &Vec<PushPackIndexRow>, right: &Vec<PushPackIndexRow>) -> (same: bool)
    ensures
        same == (left@ == right@),
{
    if left.len() != right.len() {
        return false;
    }
    let mut at: usize = 0;
    while at < left.len()
        invariant
            at <= left@.len(),
            left@.len() == right@.len(),
            forall|i: int| 0 <= i < at ==> left@[i] == right@[i],
        decreases left.len() - at,
    {
        if left[at] != right[at] {
            return false;
        }
        at = at + 1;
    }
    assert(left@ =~= right@);
    true
}

/// Prepared push, validated PACK and quarantine agree in everything.
pub open spec fn bindings_agree(
    prepared: PreparedPush,
    validated: ValidatedPushPack,
    snapshot: QuarantineSnapshot,
    fence: QuarantineFence,
    max_pack_bytes: u64,
) -> bool {
    let manifest = snapshot.manifest->0;
    &&& snapshot.state == QuarantineState::Validated
    &&& snapshot.tenant@ == prepared.tenant@
    &&& snapshot.repository@ == prepared.repository@
    &&& snapshot.id == fence.id
    &&& snapshot.generation == fence.generation
    &&& prepared.quarantine.id == snapshot.id
    &&& prepared.quarantine.generation == snapshot.generation
    &&& prepared.quarantine.manifest == manifest
    &&& prepared.quarantine.attestation == validated.attestation
    &&& validated.fence == fence
    &&& prepared.hash_algo == manifest.hash_algo
    &&& manifest.pack_checksum->0.spec_algo() == manifest.hash_algo
    &&& manifest.index_checksum->0.spec_algo() == manifest.hash_algo
    &&& prepared.fingerprint.spec_algo() == manifest.hash_algo
    &&& prepared.pack_index@ == validated.index@
    &&& manifest.pack_bytes == snapshot.bytes
    &&& manifest.pack_bytes <= max_pack_bytes
    &&& manifest.object_count == validated.index@.len()
    &&& manifest.self_contained
    &&& validated.attestation.self_contained
    &&& validated.attestation.validation_complete
    &&& validated.attestation.pack_checksum == manifest.pack_checksum->0
    &&& validated.attestation.index_checksum == manifest.index_checksum->0
    &&& validated.attestation.object_count == validated.index@.len()
    &&& prepared.repository_generation != 0
}

/// What checking the bindings comes to.
pub open spec fn binding_of(
    prepared: PreparedPush,
    validated: ValidatedPushPack,
    snapshot: QuarantineSnapshot,
    fence: QuarantineFence,
    max_pack_bytes: u64,
) -> PromotionBinding {
    if snapshot.manifest is None || snapshot.manifest->0.pack_checksum is None
        || snapshot.manifest->0.index_checksum is None {
        PromotionBinding::Unbound
    } else if validated.index@.len() > u32::MAX {
        PromotionBinding::TooManyRows
    } else if !bindings_agree(prepared, validated, snapshot, fence, max_pack_bytes) {
        PromotionBinding::Unbound
    } else {
        PromotionBinding::Bound(
            PromotionTarget {
                manifest: snapshot.manifest->0,
                pack_checksum: snapshot.manifest->0.pack_checksum->0,
                index_checksum: snapshot.manifest->0.index_checksum->0,
                object_count: validated.index@.len() as u32,
            },
        )
    }
}

/// Check the bindings.
pub fn check_bindings(
    prepared: &PreparedPush,
    validated: &ValidatedPushPack,
    snapshot: &QuarantineSnapshot,
    fence: QuarantineFence,
    max_pack_bytes: u64,
) -> (binding: PromotionBinding)
    ensures
        binding == binding_of(*prepared, *validated, *snapshot, fence, max_pack_bytes),
{
    let manifest = match snapshot.manifest {
        Some(manifest) => manifest,
        None => {
            return PromotionBinding::Unbound;
        },
    };
    let pack_checksum = match manifest.pack_checksum {
        Some(checksum) => checksum,
        None => {
            return PromotionBinding::Unbound;
        },
    };
    let index_checksum = match manifest.index_checksum {
        Some(checksum) => checksum,
        None => {
            return PromotionBinding::Unbound;
        },
    };
    if validated.index.len() as u64 > u32::MAX as u64 {
        return PromotionBinding::TooManyRows;
    }
    let object_count: u32 = validated.index.len() as u32;
    let source = prepared.quarantine;
    let attestation = validated.attestation;
    if snapshot.state != QuarantineState::Validated || !snapshot.tenant.same(&prepared.tenant)
        || !snapshot.repository.same(&prepared.repository) || snapshot.id != fence.id
        || snapshot.generation != fence.generation || source.id != snapshot.id || source.generation
        != snapshot.generation || source.manifest != manifest || source.attestation != attestation
        || validated.fence != fence || prepared.hash_algo != manifest.hash_algo
        || pack_checksum.algo() != manifest.hash_algo || index_checksum.algo()
        != manifest.hash_algo || prepared.fingerprint.algo() != manifest.hash_algo || !same_index(
        &prepared.pack_index,
        &validated.index,
    ) || manifest.pack_bytes != snapshot.bytes || manifest.pack_bytes > max_pack_bytes
        || manifest.object_count != object_count || !manifest.self_contained
        || !attestation.self_contained || !attestation.validation_complete
        || attestation.pack_checksum != pack_checksum || attestation.index_checksum
        != index_checksum || attestation.object_count != object_count
        || prepared.repository_generation == 0 {
        return PromotionBinding::Unbound;
    }
    PromotionBinding::Bound(
        PromotionTarget { manifest, pack_checksum, index_checksum, object_count },
    )
}

/// The trailer of a PACK is the digest of its body and the checksum.
pub open spec fn trailer_agrees(pack: Seq<u8>, algo: HashAlgo, checksum: ObjectId) -> bool {
    let body = pack.len() - algo.spec_len();
    &&& 0 <= body
    &&& pack.skip(body) == checksum@
    &&& hashed_id(algo, pack.take(body)) == checksum
}

/// Incremental digest of a PACK body, with its trailer set aside.
pub struct BodyDigest {
    total: u64,
    body: u64,
    offset: u64,
    hasher: StreamHasher,
    trailer: Vec<u8>,
}

impl BodyDigest {
    /// The bytes seen so far.
    pub closed spec fn seen(self) -> Seq<u8> {
        self.hasher.absorbed() + self.trailer@
    }

    /// The complete length.
    pub closed spec fn spec_total(self) -> u64 {
        self.total
    }

    /// The hash algorithm.
    pub closed spec fn spec_algo(self) -> HashAlgo {
        self.hasher.spec_algo()
    }

    /// Body and trailer are told apart.
    pub closed spec fn wf(self) -> bool {
        &&& self.body + self.hasher.spec_algo().spec_len() == self.total
        &&& self.offset == self.seen().len()
        &&& self.hasher.absorbed().len() <= self.body
        &&& self.trailer@.len() > 0 ==> self.hasher.absorbed().len() == self.body
    }

    /// Start, unless the PACK is shorter than a trailer.
    pub fn new(algo: HashAlgo, total: u64) -> (digest: Option<Self>)
        ensures
            digest is Some <==> total >= algo.spec_len(),
            digest is Some ==> {
                &&& digest->0.wf()
                &&& digest->0.seen() == Seq::<u8>::empty()
                &&& digest->0.spec_total() == total
                &&& digest->0.spec_algo() == algo
            },
    {
        let trailer_len: u64 = algo.len() as u64;
        if total < trailer_len {
            return None;
        }
        let digest = BodyDigest {
            total,
            body: total - trailer_len,
            offset: 0,
            hasher: StreamHasher::new(algo),
            trailer: Vec::new(),
        };
        assert(digest.seen() =~= Seq::<u8>::empty());
        Some(digest)
    }

    /// Take more bytes.
    pub fn update(&mut self, bytes: &[u8])
        requires
            old(self).wf(),
            old(self).seen().len() + bytes@.len() <= old(self).spec_total(),
        ensures
            final(self).wf(),
            final(self).seen() == old(self).seen() + bytes@,
            final(self).spec_total() == old(self).spec_total(),
            final(self).spec_algo() == old(self).spec_algo(),
    {
        let ghost seen = self.seen();
        let length: usize = bytes.len();
        let mut split: usize = 0;
        if self.offset < self.body {
            let room: u64 = self.body - self.offset;
            split = if room < length as u64 {
                room as usize
            } else {
                length
            };
            let front: Vec<u8> = copy_range(bytes, 0, split);
            self.hasher.update(front.as_slice());
            assert(front@ =~= bytes@.take(split as int));
        }
        let rest: Vec<u8> = copy_range(bytes, split, length);
        append_bytes(&mut self.trailer, rest.as_slice());
        self.offset = self.offset + length as u64;
        assert(self.seen() =~= seen + bytes@);
    }

    /// Return whether the trailer is the digest of the body and the checksum.
    pub fn finish(self, checksum: ObjectId) -> (agrees: bool)
        requires
            self.wf(),
            self.seen().len() == self.spec_total(),
        ensures
            agrees == trailer_agrees(self.seen(), self.spec_algo(), checksum),
    {
        let expected: Vec<u8> = checksum.to_bytes();
        proof {
            let seen = self.seen();
            assert(seen.take(self.body as int) =~= self.hasher.absorbed());
            assert(seen.skip(self.body as int) =~= self.trailer@);
        }
        let same: bool = same_bytes(self.trailer.as_slice(), expected.as_slice());
        let found: ObjectId = self.hasher.finish();
        same && found == checksum
    }
}

/// Compute the length of the next range.
pub fn next_range(total: u64, offset: u64, maximum: usize) -> (length: usize)
    requires
        offset < total,
        maximum > 0,
    ensures
        0 < length <= maximum,
        offset + length <= total,
        length == maximum || offset + length == total,
{
    let remaining: u64 = total - offset;
    if remaining < maximum as u64 {
        remaining as usize
    } else {
        maximum
    }
}

/// Evidence that a PACK and its index were installed.
#[derive(Debug)]
pub struct PromotionEvidence {
    /// Owning tenant.
    pub tenant: TenantId,
    /// Owning repository.
    pub repository: RepositoryId,
    /// Source quarantine.
    pub quarantine_id: QuarantineId,
    /// Fenced quarantine generation.
    pub quarantine_generation: u64,
    /// Repository generation.
    pub repository_generation: u64,
    /// Trailing checksum.
    pub pack_checksum: ObjectId,
    /// Checksum of the validated index.
    pub index_checksum: ObjectId,
    /// Fingerprint of the prepared metadata.
    pub prepared_fingerprint: ObjectId,
    /// Entry count.
    pub object_count: u32,
    /// Complete PACK bytes.
    pub size_bytes: u64,
    /// Whether the same pack was already stored.
    pub deduplicated: bool,
}

/// Whose promotion is staged.
#[derive(Debug)]
pub struct PromotionScope {
    /// Owning tenant.
    pub tenant: TenantId,
    /// Owning repository.
    pub repository: RepositoryId,
    /// Source quarantine.
    pub quarantine_id: QuarantineId,
    /// Fenced quarantine generation.
    pub quarantine_generation: u64,
    /// Repository generation.
    pub repository_generation: u64,
    /// Fingerprint of the prepared metadata.
    pub prepared_fingerprint: ObjectId,
    /// Trailing checksum.
    pub pack_checksum: ObjectId,
    /// Checksum of the validated index.
    pub index_checksum: ObjectId,
}

impl PromotionScope {
    /// The scope is that of a prepared push and its target.
    pub open spec fn fits(
        self,
        prepared: PreparedPush,
        fence: QuarantineFence,
        target: PromotionTarget,
    ) -> bool {
        &&& self.tenant@ == prepared.tenant@
        &&& self.repository@ == prepared.repository@
        &&& self.quarantine_id == fence.id
        &&& self.quarantine_generation == fence.generation
        &&& self.repository_generation == prepared.repository_generation
        &&& self.prepared_fingerprint == prepared.fingerprint
        &&& self.pack_checksum == target.pack_checksum
        &&& self.index_checksum == target.index_checksum
    }

    /// Name the scope of a prepared push and its target.
    pub fn of(prepared: &PreparedPush, fence: QuarantineFence, target: PromotionTarget) -> (scope:
        Self)
        ensures
            scope.fits(*prepared, fence, target),
    {
        PromotionScope {
            tenant: prepared.tenant.clone(),
            repository: prepared.repository.clone(),
            quarantine_id: fence.id,
            quarantine_generation: fence.generation,
            repository_generation: prepared.repository_generation,
            prepared_fingerprint: prepared.fingerprint,
            pack_checksum: target.pack_checksum,
            index_checksum: target.index_checksum,
        }
    }
}

/// The pack holds the target's bytes and its index.
pub open spec fn pack_of(
    pack: StoredPack,
    target: PromotionTarget,
    rows: Seq<PushPackIndexRow>,
    data: Seq<u8>,
) -> bool {
    &&& pack.metadata == (StoredPackMetadata {
        pack_checksum: target.pack_checksum,
        index_checksum: target.index_checksum,
        object_count: target.object_count,
        size_bytes: target.manifest.pack_bytes,
        storage_order: 0,
    })
    &&& pack.data@ == data
    &&& pack.index@ == stored_index(rows)
}

/// Both promotions store the same pack of one repository.
pub open spec fn same_pack(left: PromotionScope, right: PromotionScope) -> bool {
    &&& left.tenant@ == right.tenant@
    &&& left.repository@ == right.repository@
    &&& left.pack_checksum == right.pack_checksum
}

/// Return whether both promotions store the same pack of one repository.
pub fn check_same_pack(left: &PromotionScope, right: &PromotionScope) -> (same: bool)
    ensures
        same == same_pack(*left, *right),
{
    left.tenant.same(&right.tenant) && left.repository.same(&right.repository)
        && left.pack_checksum == right.pack_checksum
}

/// The evidence of an installed pack.
pub open spec fn evidence_of(
    scope: PromotionScope,
    pack: StoredPack,
    deduplicated: bool,
) -> PromotionEvidence {
    PromotionEvidence {
        tenant: scope.tenant,
        repository: scope.repository,
        quarantine_id: scope.quarantine_id,
        quarantine_generation: scope.quarantine_generation,
        repository_generation: scope.repository_generation,
        pack_checksum: scope.pack_checksum,
        index_checksum: scope.index_checksum,
        prepared_fingerprint: scope.prepared_fingerprint,
        object_count: pack.metadata.object_count,
        size_bytes: pack.metadata.size_bytes,
        deduplicated,
    }
}

/// Testify that a pack was installed.
pub fn testify(scope: &PromotionScope, pack: &StoredPack, deduplicated: bool) -> (evidence:
    PromotionEvidence)
    ensures
        evidence == evidence_of(*scope, *pack, deduplicated),
{
    PromotionEvidence {
        tenant: scope.tenant.clone(),
        repository: scope.repository.clone(),
        quarantine_id: scope.quarantine_id,
        quarantine_generation: scope.quarantine_generation,
        repository_generation: scope.repository_generation,
        pack_checksum: scope.pack_checksum,
        index_checksum: scope.index_checksum,
        prepared_fingerprint: scope.prepared_fingerprint,
        object_count: pack.metadata.object_count,
        size_bytes: pack.metadata.size_bytes,
        deduplicated,
    }
}

} // verus!
