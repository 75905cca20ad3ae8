//! Bounded validation and indexing of a quarantined PACK.
//!
//! Entries are read in exact private ranges. Nothing becomes visible here; the quarantine is
//! attested only after every entry was parsed, inflated, resolved and hashed.

use crate::bytes::{append_bytes, be_bytes, copy_range, push_be_u32, push_be_u64, read_be};
use crate::clock::Timestamp;
use crate::delta_code::{apply_instructions, delta_apply};
use crate::digest::{
    canonical_id, crc32_of, hashed_id, object_id, EntryChecksum, StreamHasher,
};
use crate::object::{
    object_header, object_header_bytes, HashAlgo, ObjectId, ObjectKind, RepositoryId, TenantId,
};
use crate::oid_map::OidMap;
use crate::push_metrics::ReceivePackLimits;
use crate::push_quarantine::{
    reads_under, unattested, unreadable, PackQuarantine, QuarantineFence, QuarantineIndexAttestation,
    QuarantineManifest, QuarantineSnapshot, QuarantineState, QuarantineStep,
};
use crate::varint::{
    entry_header, holds_at, ofs_fold, read_entry_header_at, read_varint, two64, varint,
};
use crate::zlib::{
    decompress_new, decompress_step, decompress_total_in, decompress_total_out, inflate_input, inflate_outcome,
    inflate_output, zeroed, zlib_decoded, ZlibStatus,
};
use vstd::prelude::*;

verus! {

/// The longest base distance that is read.
pub const MAX_ENTRY_HEADER_BYTES: usize = 16;

/// The longest headers of one entry: its type and size, then its base.
pub const MAX_PREFIX_BYTES: usize = 42;

/// The room that one call of the decompressor is given.
pub const INFLATE_BUFFER_BYTES: usize = 65_536;

const STRUCTURAL_MEMORY_MULTIPLIER: u64 = 8;

const STRUCTURAL_OBJECT_OVERHEAD: u64 = 256;

/// Exact byte span inside a PACK.
#[derive(Clone, Copy, Debug, PartialEq, Eq, Structural)]
pub struct PushPackByteSpan {
    /// Absolute byte offset.
    pub offset: u64,
    /// Span length.
    pub length: u64,
}

impl PushPackByteSpan {
    /// The position after the span.
    pub open spec fn end(self) -> int {
        self.offset + self.length
    }

    /// The bytes of the span.
    pub open spec fn of(self, pack: Seq<u8>) -> Seq<u8> {
        pack.subrange(self.offset as int, self.end())
    }
}

/// Validated entry representation and dependency.
#[derive(Clone, Copy, Debug, PartialEq, Eq, Structural)]
pub enum PushPackEntryKind {
    /// Direct commit, tree, blob or tag.
    Direct,
    /// OFS-delta bound to an earlier entry.
    OfsDelta {
        /// Absolute base entry offset.
        base_offset: u64,
        /// Resolved base object ID.
        base_oid: ObjectId,
    },
    /// REF-delta bound by object ID.
    RefDelta {
        /// Base object ID.
        base_oid: ObjectId,
        /// Whether the base came from outside this quarantine.
        external: bool,
    },
}

/// One validated PACK index row.
#[derive(Clone, Copy, Debug, PartialEq, Eq, Structural)]
pub struct PushPackIndexRow {
    /// Zero-based entry ordinal.
    pub ordinal: u32,
    /// Resolved object ID.
    pub oid: ObjectId,
    /// Resolved object kind.
    pub kind: ObjectKind,
    /// Complete entry span.
    pub entry: PushPackByteSpan,
    /// Type and size header span.
    pub header: PushPackByteSpan,
    /// Base header span, empty for direct entries.
    pub base_header: PushPackByteSpan,
    /// Zlib stream span.
    pub compressed: PushPackByteSpan,
    /// Declared payload or instruction bytes.
    pub declared_size: u64,
    /// Resolved payload bytes.
    pub resolved_size: u64,
    /// Delta depth, zero for direct entries.
    pub delta_depth: u32,
    /// CRC-32 of the complete entry.
    pub crc32: u32,
    /// Direct or resolved delta representation.
    pub representation: PushPackEntryKind,
}

/// References of a commit.
#[derive(Debug)]
pub struct CommitData {
    /// Root tree.
    pub tree: ObjectId,
    /// Parents in order.
    pub parents: Vec<ObjectId>,
}

/// One tree entry.
#[derive(Debug)]
pub struct TreeEntry {
    /// File mode.
    pub mode: u32,
    /// Entry name.
    pub name: Vec<u8>,
    /// Referenced object.
    pub oid: ObjectId,
}

/// Reference of an annotated tag.
#[derive(Debug)]
pub struct TagData {
    /// Tagged object.
    pub object: ObjectId,
    /// Kind that the tag names, where it names a known one.
    pub object_type: Option<ObjectKind>,
}

/// Parsed structural metadata.
#[derive(Debug)]
pub enum PushStructuralMetadata {
    /// Commit references.
    Commit(CommitData),
    /// Ordered tree entries.
    Tree(Vec<TreeEntry>),
    /// Tag reference.
    Tag(TagData),
}

/// One structural object retained without blob payloads.
#[derive(Debug)]
pub struct PushStructuralObject {
    /// Object ID.
    pub oid: ObjectId,
    /// Parsed value.
    pub metadata: PushStructuralMetadata,
}

/// Parser of commit, tree and tag payloads.
pub trait StructuralParser {
    /// A payload parses this way.
    closed spec fn parses(
        kind: ObjectKind,
        data: Seq<u8>,
        algo: HashAlgo,
        parsed: Option<PushStructuralMetadata>,
    ) -> bool {
        true
    }

    /// Parse one payload, or return nothing where it is malformed.
    fn parse(&mut self, kind: ObjectKind, data: &[u8], algo: HashAlgo) -> (parsed: Option<
        PushStructuralMetadata,
    >)
        ensures
            Self::parses(kind, data@, algo, parsed),
    ;
}

/// Parser that reads no structural object, for packs of blobs alone.
pub struct BlobsOnly;

impl StructuralParser for BlobsOnly {
    open spec fn parses(
        kind: ObjectKind,
        data: Seq<u8>,
        algo: HashAlgo,
        parsed: Option<PushStructuralMetadata>,
    ) -> bool {
        parsed is None
    }

    fn parse(&mut self, kind: ObjectKind, data: &[u8], algo: HashAlgo) -> Option<
        PushStructuralMetadata,
    > {
        None
    }
}

/// Counts suitable for audit records.
#[derive(Clone, Copy, Debug, PartialEq, Eq, Structural)]
pub struct PushValidationSummary {
    /// Total validated entries.
    pub objects: u64,
    /// Direct entries.
    pub direct_objects: u64,
    /// OFS-delta entries.
    pub ofs_deltas: u64,
    /// REF-delta entries.
    pub ref_deltas: u64,
    /// Resolved commits.
    pub commits: u64,
    /// Resolved trees.
    pub trees: u64,
    /// Resolved blobs.
    pub blobs: u64,
    /// Resolved annotated tags.
    pub tags: u64,
    /// Inflated direct payload and instruction bytes.
    pub inflated_bytes: u64,
    /// Largest delta depth.
    pub maximum_delta_depth: u32,
    /// Largest resolved-to-instruction ratio.
    pub maximum_delta_expansion_ratio: u64,
    /// Deltas whose base came from outside.
    pub external_bases: u64,
}

/// Counts of nothing.
pub open spec fn empty_summary() -> PushValidationSummary {
    PushValidationSummary {
        objects: 0,
        direct_objects: 0,
        ofs_deltas: 0,
        ref_deltas: 0,
        commits: 0,
        trees: 0,
        blobs: 0,
        tags: 0,
        inflated_bytes: 0,
        maximum_delta_depth: 0,
        maximum_delta_expansion_ratio: 0,
        external_bases: 0,
    }
}

impl Default for PushValidationSummary {
    fn default() -> (summary: Self)
        ensures
            summary == empty_summary(),
    {
        PushValidationSummary {
            objects: 0,
            direct_objects: 0,
            ofs_deltas: 0,
            ref_deltas: 0,
            commits: 0,
            trees: 0,
            blobs: 0,
            tags: 0,
            inflated_bytes: 0,
            maximum_delta_depth: 0,
            maximum_delta_expansion_ratio: 0,
            external_bases: 0,
        }
    }
}

/// Complete validated index, structural summary and attestation.
#[derive(Debug)]
pub struct ValidatedPushPack {
    /// Ordered entry index.
    pub index: Vec<PushPackIndexRow>,
    /// Parsed structural objects.
    pub structural_objects: Vec<PushStructuralObject>,
    /// Audit counts.
    pub summary: PushValidationSummary,
    /// Evidence stored in the quarantine manifest.
    pub attestation: QuarantineIndexAttestation,
    /// Fence after the attestation.
    pub fence: QuarantineFence,
}

/// Validation work checkpoint.
pub trait PushPackValidationWork {
    /// A charge may be answered so.
    closed spec fn answers(units: u64, charged: bool) -> bool {
        true
    }

    /// Charge work units; `false` means that the budget is exhausted.
    fn charge(&mut self, units: u64) -> (charged: bool)
        ensures
            Self::answers(units, charged),
    ;
}

/// Counter-based validation work allowance.
#[derive(Clone, Copy, Debug, PartialEq, Eq, Structural)]
pub struct PushPackValidationWorkLimit {
    remaining: u64,
}

impl PushPackValidationWorkLimit {
    /// The units left.
    pub closed spec fn left(self) -> u64 {
        self.remaining
    }

    /// Create an allowance.
    pub fn new(units: u64) -> (limit: Self)
        ensures
            limit.left() == units,
    {
        PushPackValidationWorkLimit { remaining: units }
    }

    /// Return the units left.
    pub fn remaining(&self) -> (units: u64)
        ensures
            units == self.left(),
    {
        self.remaining
    }
}

impl PushPackValidationWork for PushPackValidationWorkLimit {
    /// A charge of nothing is never refused.
    open spec fn answers(units: u64, charged: bool) -> bool {
        charged || units > 0
    }

    fn charge(&mut self, units: u64) -> (charged: bool)
        ensures
            charged == (units <= old(self).left()),
            final(self).left() == if charged {
                old(self).left() - units
            } else {
                old(self).left() as int
            },
    {
        if units > self.remaining {
            return false;
        }
        self.remaining = self.remaining - units;
        true
    }
}

/// Caller-observed control state.
#[derive(Clone, Copy, Debug, PartialEq, Eq, Structural)]
pub struct PushPackValidationObservation {
    /// Observed time.
    pub observed_at: Timestamp,
    /// Cancellation signal.
    pub cancelled: bool,
}

/// Cancellation and time provider.
pub trait PushPackValidationControl {
    /// The source may make this observation.
    closed spec fn observes(observation: PushPackValidationObservation) -> bool {
        true
    }

    /// Return the latest observation.
    fn observe(&mut self) -> (observation: PushPackValidationObservation)
        ensures
            Self::observes(observation),
    ;
}

/// Indexer bounds and request times.
#[derive(Clone, Copy, Debug, PartialEq, Eq, Structural)]
pub struct PushPackValidationOptions {
    /// Shared push limits.
    pub limits: ReceivePackLimits,
    /// Maximum bytes in one range read.
    pub range_chunk_bytes: usize,
    /// Maximum index and dependency bookkeeping bytes.
    pub max_index_bytes: u64,
    /// Validation start.
    pub started_at: Timestamp,
    /// Validation deadline.
    pub deadline: Timestamp,
}

impl PushPackValidationOptions {
    /// The options may be used.
    pub open spec fn valid(self) -> bool {
        &&& self.limits.fault() is None
        &&& 0 < self.range_chunk_bytes <= self.limits.bytes_in_flight
        &&& 0 < self.max_index_bytes <= self.limits.max_metadata_memory_bytes
        &&& self.started_at.unix_nanos < self.deadline.unix_nanos
        &&& self.deadline.unix_nanos - self.started_at.unix_nanos <= self.limits.max_duration.nanos
    }

    /// Validate range and index limits and the request duration.
    pub fn validate(self) -> (result: Result<Self, PushPackValidationError>)
        ensures
            result == if self.valid() {
                Ok::<Self, PushPackValidationError>(self)
            } else {
                Err(PushPackValidationError::InvalidLimits)
            },
    {
        if self.limits.validate().is_err() {
            return Err(PushPackValidationError::InvalidLimits);
        }
        if self.range_chunk_bytes == 0 || self.range_chunk_bytes as u64
            > self.limits.bytes_in_flight || self.max_index_bytes == 0 || self.max_index_bytes
            > self.limits.max_metadata_memory_bytes || self.deadline.unix_nanos
            <= self.started_at.unix_nanos {
            return Err(PushPackValidationError::InvalidLimits);
        }
        proof {
            crate::push_metrics::law_valid_limits_are_bounded(self.limits);
        }
        match self.deadline.unix_nanos.checked_sub(self.started_at.unix_nanos) {
            Some(elapsed) => {
                if elapsed as u128 > self.limits.max_duration.nanos {
                    return Err(PushPackValidationError::InvalidLimits);
                }
                Ok(self)
            },
            None => Err(PushPackValidationError::InvalidLimits),
        }
    }
}

/// Authorized existing base payload.
#[derive(Debug)]
pub struct AuthorizedPushBase {
    /// Base kind.
    pub kind: ObjectKind,
    /// Base payload.
    pub data: Vec<u8>,
}

/// Authorized-base provider failure.
#[derive(Clone, Copy, Debug, PartialEq, Eq, Structural)]
pub struct AuthorizedPushBaseError;

/// Repository-scoped provider of existing REF-delta bases.
pub trait AuthorizedPushBaseProvider {
    /// A repository's base may be answered so.
    closed spec fn gives(
        tenant: Seq<char>,
        repository: Seq<char>,
        oid: ObjectId,
        answer: Result<Option<AuthorizedPushBase>, AuthorizedPushBaseError>,
    ) -> bool {
        true
    }

    /// The lookups so far, where the provider keeps them: for whom, of what, and up to how many
    /// bytes.
    closed spec fn lookups(&self) -> Option<Seq<(Seq<char>, Seq<char>, ObjectId, u64)>> {
        None
    }

    /// Return one authorized base, or nothing when it is unavailable.
    ///
    /// `max_bytes` is enforced while reading.
    fn read_base(
        &mut self,
        tenant: &TenantId,
        repository: &RepositoryId,
        oid: ObjectId,
        max_bytes: u64,
    ) -> (answer: Result<Option<AuthorizedPushBase>, AuthorizedPushBaseError>)
        ensures
            Self::gives(tenant@, repository@, oid, answer),
            old(self).lookups() matches Some(earlier) ==> final(self).lookups() == Some(
                earlier.push((tenant@, repository@, oid, max_bytes)),
            ),
    ;
}

/// Provider that forbids every external base.
#[derive(Clone, Copy, Debug)]
pub struct NoAuthorizedPushBases;

impl AuthorizedPushBaseProvider for NoAuthorizedPushBases {
    open spec fn gives(
        tenant: Seq<char>,
        repository: Seq<char>,
        oid: ObjectId,
        answer: Result<Option<AuthorizedPushBase>, AuthorizedPushBaseError>,
    ) -> bool {
        answer == Ok::<Option<AuthorizedPushBase>, AuthorizedPushBaseError>(None)
    }

    fn read_base(
        &mut self,
        tenant: &TenantId,
        repository: &RepositoryId,
        oid: ObjectId,
        max_bytes: u64,
    ) -> (result: Result<Option<AuthorizedPushBase>, AuthorizedPushBaseError>)
        ensures
            result == Ok::<Option<AuthorizedPushBase>, AuthorizedPushBaseError>(None),
    {
        Ok(None)
    }
}

/// Pre-publication validation failure.
#[derive(Clone, Copy, Debug, PartialEq, Eq, Structural)]
pub enum PushPackValidationError {
    /// Validation limits are zero or inconsistent.
    InvalidLimits,
    /// Quarantine is not sealed or its manifest is incomplete.
    InvalidQuarantine,
    /// Quarantine read or attestation failed.
    Quarantine,
    /// Cancellation was observed.
    Cancelled,
    /// Deadline elapsed or time moved backwards.
    Deadline,
    /// Work budget was exhausted.
    WorkBudget,
    /// PACK header, version, count, trailer or entry boundary is invalid.
    InvalidPack,
    /// Entry or base header is malformed.
    InvalidHeader,
    /// Entry count or index memory exceeds its limit.
    IndexLimit,
    /// Exactly one complete zlib stream was not present.
    InvalidCompressedStream,
    /// Declared, inflated or resolved size is invalid.
    ObjectSize,
    /// Delta instructions, depth, expansion or base cache exceeded limits.
    DeltaLimit,
    /// Delta dependency is cyclic, missing or otherwise unresolved.
    UnresolvedDependency,
    /// Base provider failed or returned other content.
    InvalidExternalBase,
    /// Two entries resolved to one object ID.
    DuplicateObject,
    /// Structural object parsing failed.
    InvalidStructuralObject,
    /// A bounded allocation failed.
    Allocation,
}

/// What an entry is stored as and depends on.
#[derive(Clone, Copy, Debug, PartialEq, Eq, Structural)]
pub enum EntryDependency {
    /// A complete object.
    Direct(ObjectKind),
    /// A delta against the entry at an index.
    Ofs {
        /// Index of the base entry.
        base_index: usize,
        /// Offset of the base entry.
        base_offset: u64,
    },
    /// A delta against an object ID.
    Ref {
        /// Base object ID.
        base_oid: ObjectId,
    },
}

/// What an entry resolved to.
#[derive(Clone, Copy, Debug, PartialEq, Eq, Structural)]
pub struct ResolvedEntry {
    /// Object ID.
    pub oid: ObjectId,
    /// Object kind.
    pub kind: ObjectKind,
    /// Payload bytes.
    pub size: u64,
    /// Delta depth.
    pub depth: u32,
    /// Whether the base came from outside.
    pub external: bool,
}

/// One parsed entry.
#[derive(Clone, Copy, Debug, PartialEq, Eq, Structural)]
pub struct ParsedEntry {
    /// Zero-based ordinal.
    pub ordinal: u32,
    /// Absolute offset.
    pub entry_offset: u64,
    /// Type and size header span.
    pub header: PushPackByteSpan,
    /// Base header span.
    pub base_header: PushPackByteSpan,
    /// Zlib stream span.
    pub compressed: PushPackByteSpan,
    /// Declared size.
    pub declared_size: u64,
    /// CRC-32 of the entry.
    pub crc32: u32,
    /// Representation and dependency.
    pub dependency: EntryDependency,
    /// Resolution, once known.
    pub resolved: Option<ResolvedEntry>,
}

impl ParsedEntry {
    /// The type code of the entry.
    pub open spec fn code(self) -> u8 {
        match self.dependency {
            EntryDependency::Direct(kind) => kind.code(),
            EntryDependency::Ofs { .. } => 6,
            EntryDependency::Ref { .. } => 7,
        }
    }

    /// The complete entry span.
    pub open spec fn span(self) -> PushPackByteSpan {
        PushPackByteSpan {
            offset: self.entry_offset,
            length: (self.compressed.end() - self.entry_offset) as u64,
        }
    }

    /// What the entry's stream inflates to.
    pub open spec fn inflated(self, pack: Seq<u8>) -> Seq<u8> {
        zlib_decoded(self.compressed.of(pack))->0
    }

    /// The entry's spans follow one another, its header says its code and size, its stream inflates
    /// to the declared size and its checksum covers all of it.
    pub open spec fn shaped(self, pack: Seq<u8>, algo: HashAlgo, body_end: int) -> bool {
        &&& self.header.offset == self.entry_offset
        &&& holds_at(
            pack,
            self.entry_offset as int,
            entry_header(self.code(), self.declared_size as nat),
        )
        &&& self.header.length == entry_header(self.code(), self.declared_size as nat).len()
        &&& self.base_header.offset == self.header.end()
        &&& self.compressed.offset == self.base_header.end()
        &&& self.compressed.end() <= body_end
        &&& body_end <= pack.len()
        &&& zlib_decoded(self.compressed.of(pack)) is Some
        &&& self.inflated(pack).len() == self.declared_size
        &&& self.crc32 == crc32_of(pack.subrange(self.entry_offset as int, self.compressed.end()))
        &&& match self.dependency {
            EntryDependency::Direct(_) => self.base_header.length == 0,
            EntryDependency::Ofs { base_offset, .. } => {
                &&& 0 < self.base_header.length <= MAX_ENTRY_HEADER_BYTES
                &&& ofs_fold(self.base_header.of(pack)) == self.entry_offset - base_offset
            },
            EntryDependency::Ref { base_oid } => {
                &&& self.base_header.length == algo.spec_len()
                &&& self.base_header.of(pack) == base_oid@
                &&& base_oid.spec_algo() == algo
                &&& !base_oid.spec_is_zero()
            },
        }
    }
}

/// A delta that turns `base` into `result`: both sizes, then instructions.
pub open spec fn delta_makes(delta: Seq<u8>, base: Seq<u8>, result: Seq<u8>) -> bool {
    let first = varint(base.len()).len() as int;
    let second = varint(result.len()).len() as int;
    &&& holds_at(delta, 0, varint(base.len()))
    &&& holds_at(delta, first, varint(result.len()))
    &&& delta_apply(base, delta, first + second) == Some(result)
}

/// Entries tile the body from its start, and every OFS base is an earlier entry.
pub open spec fn tiled(
    pack: Seq<u8>,
    algo: HashAlgo,
    body_end: int,
    entries: Seq<ParsedEntry>,
) -> bool {
    forall|i: int| 0 <= i < entries.len() ==> #[trigger] entry_placed(pack, algo, body_end, entries, i)
}

/// Where the entry after the first `count` starts.
pub open spec fn next_offset(entries: Seq<ParsedEntry>, count: int) -> int {
    if count <= 0 {
        12
    } else {
        entries[count - 1].compressed.end()
    }
}

/// One entry stands right after the one before it and is well shaped.
pub open spec fn entry_placed(
    pack: Seq<u8>,
    algo: HashAlgo,
    body_end: int,
    entries: Seq<ParsedEntry>,
    i: int,
) -> bool {
    let entry = entries[i];
    &&& entry.ordinal == i
    &&& entry.entry_offset == next_offset(entries, i)
    &&& entry.shaped(pack, algo, body_end)
    &&& entry.dependency matches EntryDependency::Ofs { base_index, base_offset } ==> base_index < i
        && entries[base_index as int].entry_offset == base_offset
}

/// An entry's resolution is justified by its payload and its base.
pub open spec fn entry_resolved(
    pack: Seq<u8>,
    algo: HashAlgo,
    entries: Seq<ParsedEntry>,
    payloads: Seq<Seq<u8>>,
    i: int,
) -> bool {
    let entry = entries[i];
    entry.resolved matches Some(resolved) ==> {
        &&& resolved.oid == canonical_id(algo, resolved.kind, payloads[i])
        &&& resolved.oid.spec_algo() == algo
        &&& resolved.size == payloads[i].len()
        &&& match entry.dependency {
            EntryDependency::Direct(kind) => {
                &&& resolved.kind == kind
                &&& payloads[i] == entry.inflated(pack)
                &&& resolved.depth == 0
                &&& !resolved.external
            },
            EntryDependency::Ofs { base_index, .. } => {
                &&& !resolved.external
                &&& resolved_against(pack, entries, payloads, i, base_index as int)
            },
            EntryDependency::Ref { base_oid } => if resolved.external {
                &&& resolved.depth == 1
                &&& exists|base: Seq<u8>|
                    #[trigger] canonical_id(algo, resolved.kind, base) == base_oid && delta_makes(
                        entry.inflated(pack),
                        base,
                        payloads[i],
                    )
            } else {
                exists|j: int|
                    0 <= j < entries.len() && #[trigger] resolved_against(
                        pack,
                        entries,
                        payloads,
                        i,
                        j,
                    ) && entries[j].resolved->0.oid == base_oid
            },
        }
    }
}

/// Entry `i` is a delta against the resolved entry `j`.
pub open spec fn resolved_against(
    pack: Seq<u8>,
    entries: Seq<ParsedEntry>,
    payloads: Seq<Seq<u8>>,
    i: int,
    j: int,
) -> bool {
    &&& entries[j].resolved is Some
    &&& entries[i].resolved->0.kind == entries[j].resolved->0.kind
    &&& entries[i].resolved->0.depth == entries[j].resolved->0.depth + 1
    &&& delta_makes(entries[i].inflated(pack), payloads[j], payloads[i])
}

/// Every entry that claims a resolution is justified.
pub open spec fn all_justified(
    pack: Seq<u8>,
    algo: HashAlgo,
    entries: Seq<ParsedEntry>,
    payloads: Seq<Seq<u8>>,
) -> bool {
    forall|i: int|
        0 <= i < entries.len() ==> #[trigger] entry_resolved(pack, algo, entries, payloads, i)
}

/// The index row of an entry.
pub open spec fn row_of(entries: Seq<ParsedEntry>, i: int) -> PushPackIndexRow {
    let entry = entries[i];
    let resolved = entry.resolved->0;
    PushPackIndexRow {
        ordinal: entry.ordinal,
        oid: resolved.oid,
        kind: resolved.kind,
        entry: entry.span(),
        header: entry.header,
        base_header: entry.base_header,
        compressed: entry.compressed,
        declared_size: entry.declared_size,
        resolved_size: resolved.size,
        delta_depth: resolved.depth,
        crc32: entry.crc32,
        representation: match entry.dependency {
            EntryDependency::Direct(_) => PushPackEntryKind::Direct,
            EntryDependency::Ofs { base_index, base_offset } => PushPackEntryKind::OfsDelta {
                base_offset,
                base_oid: entries[base_index as int].resolved->0.oid,
            },
            EntryDependency::Ref { base_oid } => PushPackEntryKind::RefDelta {
                base_oid,
                external: resolved.external,
            },
        },
    }
}

/// The rows are those of completely resolved entries that tile the body up to `body_end`.
pub open spec fn index_of(
    pack: Seq<u8>,
    algo: HashAlgo,
    body_end: int,
    rows: Seq<PushPackIndexRow>,
    entries: Seq<ParsedEntry>,
    payloads: Seq<Seq<u8>>,
) -> bool {
    &&& rows.len() == entries.len()
    &&& payloads.len() == entries.len()
    &&& tiled(pack, algo, body_end, entries)
    &&& next_offset(entries, entries.len() as int) == body_end
    &&& all_justified(pack, algo, entries, payloads)
    &&& forall|i: int| 0 <= i < entries.len() ==> (#[trigger] entries[i]).resolved is Some
    &&& forall|i: int| 0 <= i < entries.len() ==> #[trigger] rows[i] == row_of(entries, i)
    &&& forall|i: int, j: int|
        #![trigger rows[i], rows[j]]
        0 <= i < j < rows.len() ==> rows[i].oid != rows[j].oid
}

/// What one validation may still spend, and what it has seen.
#[derive(Clone, Copy, Debug, PartialEq, Eq, Structural)]
pub struct ValidationCheckpoint {
    /// Bounds in force.
    pub options: PushPackValidationOptions,
    /// Latest accepted observation.
    pub last_observed_at: Option<Timestamp>,
    /// Range reads so far.
    pub range_operations: u64,
    /// Base lookups so far.
    pub external_operations: u64,
}

/// An observation was cancelled.
pub open spec fn was_cancelled<C: PushPackValidationControl>() -> bool {
    exists|observation: PushPackValidationObservation| #[trigger]
        C::observes(observation) && observation.cancelled
}

/// An observation lies outside the request times, or before another one.
pub open spec fn was_untimely<C: PushPackValidationControl>(
    options: PushPackValidationOptions,
) -> bool {
    exists|observation: PushPackValidationObservation| #[trigger]
        C::observes(observation) && untimely::<C>(options, observation)
}

/// The observation lies outside the request times, or before another one.
pub open spec fn untimely<C: PushPackValidationControl>(
    options: PushPackValidationOptions,
    observation: PushPackValidationObservation,
) -> bool {
    ||| observation.observed_at.unix_nanos < options.started_at.unix_nanos
    ||| observation.observed_at.unix_nanos >= options.deadline.unix_nanos
    ||| exists|earlier: PushPackValidationObservation| #[trigger]
        C::observes(earlier) && observation.observed_at.unix_nanos < earlier.observed_at.unix_nanos
}

/// One observation was made and came to this.
pub open spec fn observation_follows<C: PushPackValidationControl>(
    before: ValidationCheckpoint,
    after: ValidationCheckpoint,
    observation: PushPackValidationObservation,
    result: Result<(), PushPackValidationError>,
) -> bool {
    &&& C::observes(observation)
    &&& result == before.acceptance(observation)
    &&& after == before.after(observation)
}

/// At least one unit was charged, and where that was granted one observation was made.
pub open spec fn charge_follows<C: PushPackValidationControl, W: PushPackValidationWork>(
    before: ValidationCheckpoint,
    after: ValidationCheckpoint,
    units: u64,
    result: Result<(), PushPackValidationError>,
) -> bool {
    let charged: u64 = if units == 0 {
        1
    } else {
        units
    };
    if result == Err::<(), PushPackValidationError>(PushPackValidationError::WorkBudget) {
        W::answers(charged, false) && after == before
    } else {
        &&& W::answers(charged, true)
        &&& exists|observation: PushPackValidationObservation| #[trigger]
            observation_follows::<C>(before, after, observation, result)
    }
}

/// A charge of this size is made: for a step, for a range that is read, for what one call of the
/// decompressor gives, or for a delta within the bytes in flight.
pub open spec fn charge_within(options: PushPackValidationOptions, units: u64) -> bool {
    ||| units == 1
    ||| units <= options.range_chunk_bytes
    ||| units <= INFLATE_BUFFER_BYTES
    ||| units <= options.limits.bytes_in_flight
}

/// A charge of a size that is made was refused, or as many reads were made as are allowed.
pub open spec fn work_ended<W: PushPackValidationWork>(
    options: PushPackValidationOptions,
    reads: int,
) -> bool {
    ||| exists|units: u64| #[trigger] W::answers(units, false) && charge_within(options, units)
    ||| reads >= options.limits.max_range_operations
}

/// A cancellation and an elapsed time are reported only where they were observed, and an exhausted
/// budget only where work was asked for.
pub open spec fn stop_explained<C: PushPackValidationControl, W: PushPackValidationWork>(
    options: PushPackValidationOptions,
    reads: int,
    error: PushPackValidationError,
) -> bool {
    match error {
        PushPackValidationError::Cancelled => was_cancelled::<C>(),
        PushPackValidationError::Deadline => was_untimely::<C>(options),
        PushPackValidationError::WorkBudget => work_ended::<W>(options, reads),
        _ => false,
    }
}

/// Every byte of a range announces another one.
pub open spec fn announcing(bytes: Seq<u8>, start: int, length: int) -> bool {
    &&& 0 <= start
    &&& 0 <= length
    &&& length > 0 ==> start + length <= bytes.len()
    &&& forall|i: int| start <= i < start + length ==> (#[trigger] bytes[i]) >= 128
}

/// No entry header is spelled so.
pub open spec fn no_header(bytes: Seq<u8>) -> bool {
    forall|code: u8, size: nat|
        code < 8 && size < two64() ==> bytes != #[trigger] entry_header(code, size)
}

/// After `length` bytes that announce another one, an entry header breaks off: at the end of the
/// body, past the largest size, or on a byte that completes no header.
pub open spec fn header_breaks(pack: Seq<u8>, start: int, end: int, length: int) -> bool {
    &&& announcing(pack, start, length)
    &&& {
        ||| start + length >= end
        ||| length >= 10
        ||| length == 9 && start + 9 < pack.len() && pack[start + 9] % 128 > 15
        ||| start + length < pack.len() && pack[start + length] < 128 && no_header(
            pack.subrange(start, start + length + 1),
        )
    }
}

/// No entry header can be read there.
pub open spec fn header_unreadable(pack: Seq<u8>, start: int, end: int) -> bool {
    exists|length: int| #[trigger] header_breaks(pack, start, end, length)
}

/// After `length` bytes that announce another one, a base distance breaks off: at the end of the
/// body, after a first byte that says nothing, past the largest distance, or as zero.
pub open spec fn distance_breaks(pack: Seq<u8>, start: int, end: int, length: int) -> bool {
    &&& announcing(pack, start, length)
    &&& {
        ||| start + length >= end
        ||| length >= MAX_ENTRY_HEADER_BYTES
        ||| length >= 1 && pack[start] == 128
        ||| ofs_fold(pack.subrange(start, start + length)) >= 0x1ff_ffff_ffff_ffff
        ||| start + length < pack.len() && pack[start + length] < 128 && ofs_fold(
            pack.subrange(start, start + length + 1),
        ) == 0
    }
}

/// No base distance can be read there.
pub open spec fn distance_unreadable(pack: Seq<u8>, start: int, end: int) -> bool {
    exists|length: int| #[trigger] distance_breaks(pack, start, end, length)
}

/// The base distance that is read there.
pub open spec fn distance_read(pack: Seq<u8>, start: int, length: int, distance: int) -> bool {
    &&& 0 < length
    &&& announcing(pack, start, length - 1)
    &&& start + length <= pack.len()
    &&& pack[start + length - 1] < 128
    &&& ofs_fold(pack.subrange(start, start + length)) == distance
}

/// The decompressor has taken the bytes from `offset` on.
pub open spec fn inflating(decoder: flate2::Decompress, pack: Seq<u8>, offset: int) -> bool {
    let taken = inflate_input(decoder);
    taken.len() == 0 || offset + taken.len() <= pack.len() && taken == pack.subrange(
        offset,
        offset + taken.len(),
    )
}

/// The decompressor has taken the bytes from `offset` on and is handed those that follow.
pub open spec fn fed(
    decoder: flate2::Decompress,
    input: Seq<u8>,
    pack: Seq<u8>,
    offset: int,
) -> bool {
    let at = offset + inflate_input(decoder).len();
    &&& inflating(decoder, pack, offset)
    &&& at + input.len() <= pack.len()
    &&& input == pack.subrange(at, at + input.len())
}

/// The zlib stream that starts at `offset` runs to the end of the body, or a call on it fails or
/// does nothing.
pub open spec fn stream_breaks(pack: Seq<u8>, offset: int, end: int) -> bool {
    ||| exists|decoder: flate2::Decompress| #[trigger]
        inflating(decoder, pack, offset) && offset + inflate_input(decoder).len() >= end
    ||| exists|decoder: flate2::Decompress, input: Seq<u8>| #[trigger]
        fed(decoder, input, pack, offset) && match inflate_outcome(
            decoder,
            input,
            INFLATE_BUFFER_BYTES as nat,
            false,
        ) {
            None => true,
            Some((_, consumed, produced)) => consumed == 0 && produced == 0,
        }
}

/// The zlib stream that starts at `offset` gives more bytes than `size`, or ends with fewer.
pub open spec fn stream_missizes(pack: Seq<u8>, offset: int, size: u64) -> bool {
    exists|decoder: flate2::Decompress, input: Seq<u8>| #[trigger]
        fed(decoder, input, pack, offset) && match inflate_outcome(
            decoder,
            input,
            INFLATE_BUFFER_BYTES as nat,
            false,
        ) {
            None => false,
            Some((status, _, produced)) => {
                let total = inflate_output(decoder).len() + produced;
                total > size || status == ZlibStatus::Ended && total != size
            },
        }
}

/// The stream between two offsets inflates to an object whose identity is zero.
pub open spec fn zero_stream(
    pack: Seq<u8>,
    offset: int,
    stop: int,
    algo: HashAlgo,
    kind: ObjectKind,
) -> bool {
    zlib_decoded(pack.subrange(offset, stop)) matches Some(payload) && canonical_id(
        algo,
        kind,
        payload,
    ).spec_is_zero()
}

/// What inflating the stream that starts at `offset` reports of the bytes.
#[verifier::opaque]
pub open spec fn stream_refused(
    pack: Seq<u8>,
    algo: HashAlgo,
    offset: int,
    end: int,
    size: u64,
    kind: Option<ObjectKind>,
    error: PushPackValidationError,
) -> bool {
    match error {
        PushPackValidationError::InvalidCompressedStream => stream_breaks(pack, offset, end),
        PushPackValidationError::ObjectSize => stream_missizes(pack, offset, size),
        PushPackValidationError::InvalidPack => kind is Some && exists|stop: int| #[trigger]
            zero_stream(pack, offset, stop, algo, kind->0),
        _ => false,
    }
}

/// What reading a quarantine reports: a stop that was observed, a source that cannot be read, or a
/// chunk too small for an entry's headers.
pub open spec fn reading_explained<
    Q: PackQuarantine,
    C: PushPackValidationControl,
    W: PushPackValidationWork,
>(
    fence: QuarantineFence,
    start: ValidationCheckpoint,
    before: Seq<(QuarantineFence, u64, usize)>,
    after: Seq<(QuarantineFence, u64, usize)>,
    error: PushPackValidationError,
) -> bool {
    match error {
        PushPackValidationError::Quarantine => unreadable::<Q>(fence),
        PushPackValidationError::InvalidLimits => start.options.range_chunk_bytes
            < MAX_PREFIX_BYTES,
        _ => stop_explained::<C, W>(
            start.options,
            start.range_operations + after.len() - before.len(),
            error,
        ),
    }
}

/// A base was refused, or another object was given for it.
pub open spec fn base_failed<B: AuthorizedPushBaseProvider>(
    tenant: Seq<char>,
    repository: Seq<char>,
    algo: HashAlgo,
    options: PushPackValidationOptions,
) -> bool {
    exists|
        oid: ObjectId,
        answer: Result<Option<AuthorizedPushBase>, AuthorizedPushBaseError>,
    | #[trigger]
        B::gives(tenant, repository, oid, answer) && base_refused(oid, answer, algo, options)
}

/// What was looked up since: bases of this repository, of at most so many bytes.
pub open spec fn looked_up(
    before: Option<Seq<(Seq<char>, Seq<char>, ObjectId, u64)>>,
    after: Option<Seq<(Seq<char>, Seq<char>, ObjectId, u64)>>,
    tenant: Seq<char>,
    repository: Seq<char>,
    max_bytes: u64,
) -> bool {
    before matches Some(earlier) ==> {
        &&& after matches Some(all)
        &&& earlier.is_prefix_of(all)
        &&& forall|k: int|
            earlier.len() <= k < all.len() ==> (#[trigger] all[k]).0 == tenant && all[k].1
                == repository && all[k].3 == max_bytes
    }
}

/// Two runs of lookups after each other are one.
proof fn lemma_looked_up(
    before: Option<Seq<(Seq<char>, Seq<char>, ObjectId, u64)>>,
    middle: Option<Seq<(Seq<char>, Seq<char>, ObjectId, u64)>>,
    after: Option<Seq<(Seq<char>, Seq<char>, ObjectId, u64)>>,
    tenant: Seq<char>,
    repository: Seq<char>,
    max_bytes: u64,
)
    requires
        looked_up(before, middle, tenant, repository, max_bytes),
        looked_up(middle, after, tenant, repository, max_bytes),
    ensures
        looked_up(before, after, tenant, repository, max_bytes),
{
    if let Some(earlier) = before {
        let some = middle->0;
        let all = after->0;
        assert(earlier =~= all.subrange(0, earlier.len() as int)) by {
            assert forall|k: int| 0 <= k < earlier.len() implies earlier[k] == all[k] by {
                assert(earlier[k] == some.subrange(0, earlier.len() as int)[k]);
                assert(some[k] == all.subrange(0, some.len() as int)[k]);
            }
        }
        assert forall|k: int| earlier.len() <= k < all.len() implies (#[trigger] all[k]).0 == tenant
            && all[k].1 == repository && all[k].3 == max_bytes by {
            if k < some.len() {
                assert(some[k] == all.subrange(0, some.len() as int)[k]);
            }
        }
    }
}

/// As many lookups were made as were counted, and no more than are allowed.
pub open spec fn lookups_counted(
    start: ValidationCheckpoint,
    end: ValidationCheckpoint,
    before: Option<Seq<(Seq<char>, Seq<char>, ObjectId, u64)>>,
    after: Option<Seq<(Seq<char>, Seq<char>, ObjectId, u64)>>,
) -> bool {
    let limit = start.options.limits.max_external_operations;
    &&& start.external_operations <= limit ==> end.external_operations <= limit
    &&& before matches Some(earlier) ==> after matches Some(all) && end.external_operations
        - start.external_operations == all.len() - earlier.len()
}

/// No more lookups were made than are allowed.
pub open spec fn lookups_within(
    before: Option<Seq<(Seq<char>, Seq<char>, ObjectId, u64)>>,
    after: Option<Seq<(Seq<char>, Seq<char>, ObjectId, u64)>>,
    options: PushPackValidationOptions,
) -> bool {
    before matches Some(earlier) ==> after matches Some(all) && all.len() - earlier.len()
        <= options.limits.max_external_operations
}

/// The allowed number of lookups was made, where the provider keeps them.
pub open spec fn lookups_spent(
    before: Option<Seq<(Seq<char>, Seq<char>, ObjectId, u64)>>,
    after: Option<Seq<(Seq<char>, Seq<char>, ObjectId, u64)>>,
    options: PushPackValidationOptions,
) -> bool {
    before matches Some(earlier) ==> after matches Some(all) && all.len() - earlier.len()
        >= options.limits.max_external_operations
}

/// Lookups were counted only where a base was asked for.
pub open spec fn asks_known<B: AuthorizedPushBaseProvider>(
    lookups: u64,
    tenant: Seq<char>,
    repository: Seq<char>,
) -> bool {
    lookups > 0 ==> base_asked::<B>(tenant, repository)
}

/// A base was asked for.
pub open spec fn base_asked<B: AuthorizedPushBaseProvider>(
    tenant: Seq<char>,
    repository: Seq<char>,
) -> bool {
    exists|
        oid: ObjectId,
        answer: Result<Option<AuthorizedPushBase>, AuthorizedPushBaseError>,
    | #[trigger] B::gives(tenant, repository, oid, answer)
}

/// The answer is no base with this identity and an accepted size.
pub open spec fn base_refused(
    oid: ObjectId,
    answer: Result<Option<AuthorizedPushBase>, AuthorizedPushBaseError>,
    algo: HashAlgo,
    options: PushPackValidationOptions,
) -> bool {
    match answer {
        Ok(Some(base)) => base.data@.len() > options.limits.max_object_bytes || canonical_id(
            algo,
            base.kind,
            base.data@,
        ) != oid,
        Ok(None) => false,
        Err(_) => true,
    }
}

/// The longest stream that an entry with this type code may declare.
pub open spec fn stream_limit(limits: ReceivePackLimits, code: u8) -> u64 {
    match kind_of_code(code) {
        Some(ObjectKind::Blob) => limits.max_object_bytes,
        Some(_) => if limits.max_object_bytes < limits.max_metadata_memory_bytes {
            limits.max_object_bytes
        } else {
            limits.max_metadata_memory_bytes
        },
        None => limits.max_delta_instruction_bytes,
    }
}

/// The entry at `start`, of this type code, names no base that can be read at `at`, or is of no
/// known type.
pub open spec fn base_unreadable(
    pack: Seq<u8>,
    algo: HashAlgo,
    end: int,
    start: int,
    code: u8,
    at: int,
) -> bool {
    if code == 6 {
        ||| distance_unreadable(pack, at, end)
        ||| exists|length: int, distance: int| #[trigger]
            distance_read(pack, at, length, distance) && distance > start
    } else if code == 7 {
        ||| at + algo.spec_len() > u64::MAX
        ||| at + algo.spec_len() <= pack.len() && exists|oid: ObjectId| #[trigger]
            oid.spec_is_zero() && oid@ == pack.subrange(at, at + algo.spec_len())
    } else {
        kind_of_code(code) is None
    }
}

/// The headers of the entry at `start` are refused.
#[verifier::opaque]
pub open spec fn header_refused(pack: Seq<u8>, algo: HashAlgo, end: int, start: int) -> bool {
    ||| header_unreadable(pack, start, end)
    ||| exists|code: u8, size: u64| #[trigger]
        header_at(pack, start, code, size) && base_unreadable(
            pack,
            algo,
            end,
            start,
            code,
            start + entry_header(code, size as nat).len(),
        )
}

/// The entry at `start` has this type code and declares this size.
pub open spec fn header_at(pack: Seq<u8>, start: int, code: u8, size: u64) -> bool {
    code < 8 && holds_at(pack, start, entry_header(code, size as nat))
}

/// The delta at `start` lies this far behind no entry that was read.
pub open spec fn base_misplaced(
    pack: Seq<u8>,
    start: int,
    entries: Seq<ParsedEntry>,
    size: u64,
    length: int,
    distance: int,
) -> bool {
    &&& header_at(pack, start, 6, size)
    &&& distance_read(pack, start + entry_header(6, size as nat).len(), length, distance)
    &&& forall|j: int|
        0 <= j < entries.len() ==> (#[trigger] entries[j]).entry_offset != start - distance
}

/// An object other than a blob is refused: it does not fit beside what is retained, or the parser
/// made nothing valid of it.
pub open spec fn structure_refused<S: StructuralParser>(
    kind: ObjectKind,
    payload: Seq<u8>,
    algo: HashAlgo,
    limits: ReceivePackLimits,
    retained: int,
    error: PushPackValidationError,
) -> bool {
    &&& kind != ObjectKind::Blob
    &&& match error {
        PushPackValidationError::ObjectSize => {
            ||| structural_cost(payload.len() as int) > u64::MAX
            ||| retained + structural_cost(payload.len() as int)
                > limits.max_structural_memory_bytes
        },
        PushPackValidationError::InvalidStructuralObject => exists|
            parsed: Option<PushStructuralMetadata>,
        | #[trigger]
            S::parses(kind, payload, algo, parsed) && (parsed is None || !structure_valid(
                parsed->0,
                kind,
                algo,
            )),
        _ => false,
    }
}

/// An object is refused: its identity is zero or that of a resolved entry, or its structure is.
#[verifier::opaque]
pub open spec fn object_refused<S: StructuralParser>(
    kind: ObjectKind,
    payload: Seq<u8>,
    algo: HashAlgo,
    limits: ReceivePackLimits,
    entries: Seq<ParsedEntry>,
    error: PushPackValidationError,
) -> bool {
    let oid = canonical_id(algo, kind, payload);
    match error {
        PushPackValidationError::InvalidPack => oid.spec_is_zero(),
        PushPackValidationError::DuplicateObject => exists|j: int|
            0 <= j < entries.len() && (#[trigger] entries[j]).resolved is Some
                && entries[j].resolved->0.oid == oid,
        _ => structure_refused::<S>(
            kind,
            payload,
            algo,
            limits,
            sum_structural(entries),
            error,
        ),
    }
}

/// The direct entry whose stream lies between two offsets is refused as an object.
pub open spec fn direct_refused<S: StructuralParser>(
    pack: Seq<u8>,
    algo: HashAlgo,
    limits: ReceivePackLimits,
    entries: Seq<ParsedEntry>,
    code: u8,
    offset: int,
    stop: int,
    error: PushPackValidationError,
) -> bool {
    &&& kind_of_code(code) is Some
    &&& zlib_decoded(pack.subrange(offset, stop)) is Some
    &&& object_refused::<S>(
        kind_of_code(code)->0,
        zlib_decoded(pack.subrange(offset, stop))->0,
        algo,
        limits,
        entries,
        error,
    )
}

/// What the stream of the entry at `start` is refused for.
#[verifier::opaque]
pub open spec fn content_refused<S: StructuralParser>(
    pack: Seq<u8>,
    algo: HashAlgo,
    end: int,
    limits: ReceivePackLimits,
    entries: Seq<ParsedEntry>,
    start: int,
    code: u8,
    size: u64,
    error: PushPackValidationError,
) -> bool {
    ||| error == PushPackValidationError::ObjectSize && (size > stream_limit(limits, code)
        || sum_declared(entries) + size > limits.max_inflated_bytes)
    ||| exists|offset: int|
        start < offset && #[trigger] stream_refused(
            pack,
            algo,
            offset,
            end,
            size,
            kind_of_code(code),
            error,
        )
    ||| exists|offset: int, stop: int|
        start < offset && #[trigger] direct_refused::<S>(
            pack,
            algo,
            limits,
            entries,
            code,
            offset,
            stop,
            error,
        )
}

/// What the entry that follows `entries` is refused for.
#[verifier::opaque]
pub open spec fn entry_refused<S: StructuralParser>(
    pack: Seq<u8>,
    algo: HashAlgo,
    end: int,
    limits: ReceivePackLimits,
    entries: Seq<ParsedEntry>,
    error: PushPackValidationError,
) -> bool {
    let start = next_offset(entries, entries.len() as int);
    match error {
        PushPackValidationError::InvalidHeader => header_refused(pack, algo, end, start),
        PushPackValidationError::UnresolvedDependency => exists|
            size: u64,
            length: int,
            distance: int,
        | #[trigger]
            base_misplaced(pack, start, entries, size, length, distance),
        _ => exists|code: u8, size: u64| #[trigger]
            header_at(pack, start, code, size) && content_refused::<S>(
                pack,
                algo,
                end,
                limits,
                entries,
                start,
                code,
                size,
                error,
            ),
    }
}

/// The stream of an entry that was read before is refused now: it breaks, or it ends elsewhere.
pub open spec fn reread_refused(
    pack: Seq<u8>,
    algo: HashAlgo,
    end: int,
    entry: ParsedEntry,
    kind: Option<ObjectKind>,
    error: PushPackValidationError,
) -> bool {
    let offset = entry.compressed.offset as int;
    ||| stream_refused(pack, algo, offset, end, entry.declared_size, kind, error)
    ||| error == PushPackValidationError::InvalidCompressedStream && exists|stop: int|
        stop != entry.compressed.end() && #[trigger] zlib_decoded(
            pack.subrange(offset, stop),
        ) is Some
}

/// The payloads of all resolved entries together.
pub open spec fn held_bytes(entries: Seq<ParsedEntry>, payloads: Seq<Seq<u8>>) -> int
    decreases entries.len(),
{
    if entries.len() == 0 {
        0
    } else {
        held_bytes(entries.drop_last(), payloads) + if entries.last().resolved is Some {
            payloads[entries.len() - 1].len() as int
        } else {
            0
        }
    }
}

/// A base that entry `i` names: the payload of a resolved entry, or an object from outside.
#[verifier::opaque]
pub open spec fn base_serves(
    algo: HashAlgo,
    entries: Seq<ParsedEntry>,
    payloads: Seq<Seq<u8>>,
    i: int,
    kind: ObjectKind,
    base: Seq<u8>,
    depth: u32,
) -> bool {
    ||| exists|j: int|
        0 <= j < entries.len() && (#[trigger] entries[j]).resolved is Some
            && entries[j].resolved->0.kind == kind && entries[j].resolved->0.depth == depth
            && base == payloads[j] && match entries[i].dependency {
            EntryDependency::Direct(_) => false,
            EntryDependency::Ofs { base_index, .. } => base_index == j,
            EntryDependency::Ref { base_oid } => entries[j].resolved->0.oid == base_oid,
        }
    ||| depth == 0 && (entries[i].dependency matches EntryDependency::Ref { base_oid }
        && canonical_id(algo, kind, base) == base_oid)
}

/// The sizes that start a delta.
pub open spec fn sizes_at(delta: Seq<u8>, source: u64, target: u64) -> bool {
    &&& holds_at(delta, 0, varint(source as nat))
    &&& holds_at(delta, varint(source as nat).len() as int, varint(target as nat))
}

/// A delta is refused: its sizes cannot be read, it exceeds a limit beside at most `held` cached
/// bytes, or it does not apply to its base.
#[verifier::opaque]
pub open spec fn delta_refused(
    limits: ReceivePackLimits,
    delta: Seq<u8>,
    kind: ObjectKind,
    base: Seq<u8>,
    depth: u32,
    held: int,
) -> bool {
    ||| forall|source: u64, target: u64| !(#[trigger] sizes_at(delta, source, target))
    ||| exists|source: u64, target: u64, cached: u64| #[trigger]
        sizes_at(delta, source, target) && cached <= held && !(#[trigger] delta_allowed(
            limits,
            kind,
            base.len() as u64,
            depth,
            source,
            target,
            delta.len() as u64,
            cached,
        ))
    ||| exists|source: u64, target: u64| #[trigger]
        sizes_at(delta, source, target) && (target > usize::MAX || !(delta_apply(
            base,
            delta,
            (varint(source as nat).len() + varint(target as nat).len()) as int,
        ) matches Some(made) && made.len() == target))
}

/// What resolving entry `i` against this base is refused for.
#[verifier::opaque]
pub open spec fn resolution_refused<S: StructuralParser>(
    pack: Seq<u8>,
    algo: HashAlgo,
    limits: ReceivePackLimits,
    entries: Seq<ParsedEntry>,
    payloads: Seq<Seq<u8>>,
    i: int,
    kind: ObjectKind,
    base: Seq<u8>,
    depth: u32,
    error: PushPackValidationError,
) -> bool {
    &&& 0 <= i < entries.len()
    &&& entries[i].resolved is None
    &&& base_serves(algo, entries, payloads, i, kind, base, depth)
    &&& {
        ||| error == PushPackValidationError::DeltaLimit && delta_refused(
            limits,
            entries[i].inflated(pack),
            kind,
            base,
            depth,
            held_bytes(entries, payloads),
        )
        ||| exists|payload: Seq<u8>| #[trigger]
            delta_makes(entries[i].inflated(pack), base, payload) && object_refused::<S>(
                kind,
                payload,
                algo,
                limits,
                entries,
                error,
            )
    }
}

/// An outside base was given whose identity is zero.
pub open spec fn zero_base<B: AuthorizedPushBaseProvider>(
    tenant: Seq<char>,
    repository: Seq<char>,
    algo: HashAlgo,
) -> bool {
    exists|oid: ObjectId, base: AuthorizedPushBase| #[trigger]
        B::gives(tenant, repository, oid, Ok(Some(base))) && canonical_id(
            algo,
            base.kind,
            base.data@,
        ).spec_is_zero()
}

/// Some entry is open, and every open entry waits.
pub open spec fn stuck<B: AuthorizedPushBaseProvider>(
    tenant: Seq<char>,
    repository: Seq<char>,
    entries: Seq<ParsedEntry>,
) -> bool {
    &&& exists|i: int| 0 <= i < entries.len() && (#[trigger] entries[i]).resolved is None
    &&& forall|i: int|
        0 <= i < entries.len() && (#[trigger] entries[i]).resolved is None ==> waits::<B>(
            tenant,
            repository,
            entries,
            i,
        )
}

/// What resolving one of `entries` is refused for.
#[verifier::opaque]
pub open spec fn entries_refused<B: AuthorizedPushBaseProvider, S: StructuralParser>(
    tenant: Seq<char>,
    repository: Seq<char>,
    pack: Seq<u8>,
    algo: HashAlgo,
    end: int,
    limits: ReceivePackLimits,
    entries: Seq<ParsedEntry>,
    payloads: Seq<Seq<u8>>,
    error: PushPackValidationError,
) -> bool {
    ||| error == PushPackValidationError::UnresolvedDependency && stuck::<B>(
        tenant,
        repository,
        entries,
    )
    ||| error == PushPackValidationError::InvalidPack && zero_base::<B>(tenant, repository, algo)
    ||| exists|i: int, kind: Option<ObjectKind>|
        0 <= i < entries.len() && #[trigger] reread_refused(
            pack,
            algo,
            end,
            entries[i],
            kind,
            error,
        )
    ||| error == PushPackValidationError::DeltaLimit && exists|i: int|
        0 <= i < entries.len() && held_bytes(entries, payloads) + (
        #[trigger] entries[i]).declared_size > limits.max_delta_base_memory_bytes
    ||| exists|i: int, kind: ObjectKind, base: Seq<u8>, depth: u32| #[trigger]
        resolution_refused::<S>(
            pack,
            algo,
            limits,
            entries,
            payloads,
            i,
            kind,
            base,
            depth,
            error,
        )
}

/// What resolving entries reports: what reading does, a base that failed, or what one of the
/// entries is refused for.
pub open spec fn resolving_explained<
    Q: PackQuarantine,
    B: AuthorizedPushBaseProvider,
    S: StructuralParser,
    C: PushPackValidationControl,
    W: PushPackValidationWork,
>(
    tenant: Seq<char>,
    repository: Seq<char>,
    pack: Seq<u8>,
    algo: HashAlgo,
    end: int,
    fence: QuarantineFence,
    start: ValidationCheckpoint,
    before: Seq<(QuarantineFence, u64, usize)>,
    after: Seq<(QuarantineFence, u64, usize)>,
    lookups: u64,
    error: PushPackValidationError,
) -> bool {
    let options = start.options;
    ||| reading_explained::<Q, C, W>(fence, start, before, after, error)
    ||| error == PushPackValidationError::WorkBudget && base_asked::<B>(tenant, repository)
        && lookups >= options.limits.max_external_operations
    ||| error == PushPackValidationError::InvalidExternalBase && base_failed::<B>(
        tenant,
        repository,
        algo,
        options,
    )
    ||| exists|entries: Seq<ParsedEntry>, payloads: Seq<Seq<u8>>| #[trigger]
        reached(pack, algo, end, entries, payloads) && entries_refused::<B, S>(
            tenant,
            repository,
            pack,
            algo,
            end,
            options.limits,
            entries,
            payloads,
            error,
        )
}

/// Entries that tile a front of the body, with the payload of each resolved one.
pub open spec fn reached(
    pack: Seq<u8>,
    algo: HashAlgo,
    end: int,
    entries: Seq<ParsedEntry>,
    payloads: Seq<Seq<u8>>,
) -> bool {
    &&& payloads.len() == entries.len()
    &&& tiled(pack, algo, end, entries)
    &&& all_justified(pack, algo, entries, payloads)
}

/// The bytes are no PACK as the manifest describes it, or too many objects are announced.
pub open spec fn opening_refused(
    pack: Seq<u8>,
    manifest: QuarantineManifest,
    options: PushPackValidationOptions,
    error: PushPackValidationError,
) -> bool {
    let end = manifest.pack_bytes - manifest.hash_algo.spec_len();
    match error {
        PushPackValidationError::InvalidPack => {
            ||| !announces(pack, manifest.object_count as int)
            ||| manifest.object_count > options.limits.max_objects
            ||| pack.subrange(end, end + manifest.hash_algo.spec_len())
                != manifest.pack_checksum->0@
        },
        PushPackValidationError::IndexLimit => manifest.object_count * bookkeeping_bytes()
            > options.max_index_bytes,
        _ => false,
    }
}

/// The index has no checksum: it is too long, or its checksum would be zero.
pub open spec fn index_refused(
    manifest: QuarantineManifest,
    error: PushPackValidationError,
) -> bool {
    match error {
        PushPackValidationError::IndexLimit => index_payload_len(
            manifest.object_count as int,
            manifest.hash_algo,
        ) > u64::MAX,
        PushPackValidationError::InvalidPack => exists|rows: Seq<PushPackIndexRow>|
            rows.len() == manifest.object_count && (#[trigger] index_checksum_of(
                rows,
                manifest.pack_checksum->0,
                manifest.hash_algo,
            )).spec_is_zero(),
        _ => false,
    }
}

/// What the bytes of a sealed PACK are refused for.
pub open spec fn pack_refused<B: AuthorizedPushBaseProvider, S: StructuralParser>(
    snapshot: QuarantineSnapshot,
    pack: Seq<u8>,
    options: PushPackValidationOptions,
    error: PushPackValidationError,
) -> bool {
    let manifest = snapshot.manifest->0;
    let algo = manifest.hash_algo;
    let end = manifest.pack_bytes - algo.spec_len();
    ||| opening_refused(pack, manifest, options, error)
    ||| index_refused(manifest, error)
    ||| exists|entries: Seq<ParsedEntry>, payloads: Seq<Seq<u8>>| #[trigger]
        reached(pack, algo, end, entries, payloads) && {
            ||| entry_refused::<S>(pack, algo, end, options.limits, entries, error)
            ||| entries_refused::<B, S>(
                snapshot.tenant@,
                snapshot.repository@,
                pack,
                algo,
                end,
                options.limits,
                entries,
                payloads,
                error,
            )
            ||| error == PushPackValidationError::InvalidPack && entries.len()
                == manifest.object_count && next_offset(entries, entries.len() as int) != end
        }
}

/// Bytes are never refused as a stop, as an unreadable quarantine or as an outside base that failed.
pub proof fn law_refusals_are_about_bytes<B: AuthorizedPushBaseProvider, S: StructuralParser>(
    snapshot: QuarantineSnapshot,
    pack: Seq<u8>,
    options: PushPackValidationOptions,
    error: PushPackValidationError,
)
    requires
        pack_refused::<B, S>(snapshot, pack, options, error),
    ensures
        match error {
            PushPackValidationError::InvalidPack
            | PushPackValidationError::InvalidHeader
            | PushPackValidationError::InvalidCompressedStream
            | PushPackValidationError::ObjectSize
            | PushPackValidationError::DeltaLimit
            | PushPackValidationError::UnresolvedDependency
            | PushPackValidationError::DuplicateObject
            | PushPackValidationError::InvalidStructuralObject
            | PushPackValidationError::IndexLimit => true,
            _ => false,
        },
{
    reveal(entry_refused);
    reveal(content_refused);
    reveal(stream_refused);
    reveal(object_refused);
    reveal(entries_refused);
    reveal(resolution_refused);
}

/// What validating a sealed quarantine reports: what reading does, a base that failed, a refused
/// attestation, or what the bytes are refused for.
pub open spec fn validation_explained<
    Q: PackQuarantine,
    B: AuthorizedPushBaseProvider,
    S: StructuralParser,
    C: PushPackValidationControl,
    W: PushPackValidationWork,
>(
    snapshot: QuarantineSnapshot,
    pack: Seq<u8>,
    fence: QuarantineFence,
    reads: int,
    looked: Option<Seq<(Seq<char>, Seq<char>, ObjectId, u64)>>,
    looks: Option<Seq<(Seq<char>, Seq<char>, ObjectId, u64)>>,
    options: PushPackValidationOptions,
    error: PushPackValidationError,
) -> bool {
    ||| error == PushPackValidationError::Quarantine && (unreadable::<Q>(fence) || unattested::<Q>(
        fence,
    ))
    ||| error == PushPackValidationError::InvalidLimits && options.range_chunk_bytes
        < MAX_PREFIX_BYTES
    ||| stop_explained::<C, W>(options, reads, error)
    ||| error == PushPackValidationError::WorkBudget && base_asked::<B>(
        snapshot.tenant@,
        snapshot.repository@,
    ) && lookups_spent(looked, looks, options)
    ||| error == PushPackValidationError::InvalidExternalBase && base_failed::<B>(
        snapshot.tenant@,
        snapshot.repository@,
        snapshot.manifest->0.hash_algo,
        options,
    )
    ||| pack_refused::<B, S>(snapshot, pack, options, error)
}

/// The provider gave the object with this identity as a base of the repository.
pub open spec fn base_given<B: AuthorizedPushBaseProvider>(
    tenant: Seq<char>,
    repository: Seq<char>,
    algo: HashAlgo,
    oid: ObjectId,
) -> bool {
    exists|base: AuthorizedPushBase| #[trigger]
        B::gives(tenant, repository, oid, Ok(Some(base))) && canonical_id(
            algo,
            base.kind,
            base.data@,
        ) == oid
}

/// Every entry with an outside base names one that the provider gave for the repository.
pub open spec fn entries_given<B: AuthorizedPushBaseProvider>(
    tenant: Seq<char>,
    repository: Seq<char>,
    algo: HashAlgo,
    entries: Seq<ParsedEntry>,
) -> bool {
    forall|i: int|
        0 <= i < entries.len() && (#[trigger] entries[i]).resolved is Some
            && entries[i].resolved->0.external ==> (entries[i].dependency matches
            EntryDependency::Ref { base_oid } && base_given::<B>(
            tenant,
            repository,
            algo,
            base_oid,
        ))
}

/// Every row with an outside base names one that the provider gave for the repository.
pub open spec fn rows_given<B: AuthorizedPushBaseProvider>(
    tenant: Seq<char>,
    repository: Seq<char>,
    algo: HashAlgo,
    rows: Seq<PushPackIndexRow>,
) -> bool {
    forall|i: int|
        0 <= i < rows.len() ==> match (#[trigger] rows[i]).representation {
            PushPackEntryKind::RefDelta { base_oid, external } => external ==> base_given::<B>(
                tenant,
                repository,
                algo,
                base_oid,
            ),
            _ => true,
        }
}

/// A provider that gives no base leaves no row that needs one.
pub proof fn law_no_base_leaves_no_outside_row(
    tenant: Seq<char>,
    repository: Seq<char>,
    algo: HashAlgo,
    rows: Seq<PushPackIndexRow>,
)
    requires
        rows_given::<NoAuthorizedPushBases>(tenant, repository, algo, rows),
    ensures
        !needs_outside(rows),
{
}

impl ValidationCheckpoint {
    /// The latest accepted time was observed.
    pub open spec fn timed<C: PushPackValidationControl>(self) -> bool {
        self.last_observed_at matches Some(time)
            ==> exists|observation: PushPackValidationObservation| #[trigger]
            C::observes(observation) && observation.observed_at == time
    }

    /// Start under `options`.
    pub fn new(options: PushPackValidationOptions) -> (checkpoint: Self)
        ensures
            checkpoint == (ValidationCheckpoint {
                options,
                last_observed_at: None,
                range_operations: 0,
                external_operations: 0,
            }),
    {
        ValidationCheckpoint {
            options,
            last_observed_at: None,
            range_operations: 0,
            external_operations: 0,
        }
    }

    /// The result of accepting one observation.
    pub open spec fn acceptance(self, observation: PushPackValidationObservation) -> Result<
        (),
        PushPackValidationError,
    > {
        if observation.cancelled {
            Err(PushPackValidationError::Cancelled)
        } else if observation.observed_at.unix_nanos < self.options.started_at.unix_nanos
            || observation.observed_at.unix_nanos >= self.options.deadline.unix_nanos
            || (self.last_observed_at matches Some(previous) && observation.observed_at.unix_nanos
            < previous.unix_nanos) {
            Err(PushPackValidationError::Deadline)
        } else {
            Ok(())
        }
    }

    /// What is left after accepting one observation: it is remembered where it was accepted.
    pub open spec fn after(self, observation: PushPackValidationObservation) -> Self {
        if self.acceptance(observation) is Ok {
            ValidationCheckpoint { last_observed_at: Some(observation.observed_at), ..self }
        } else {
            self
        }
    }

    /// Charge units, then observe time and cancellation.
    ///
    /// At least one unit is charged. Nothing is observed where the charge is refused.
    pub fn charge<C: PushPackValidationControl, W: PushPackValidationWork>(
        &mut self,
        control: &mut C,
        work: &mut W,
        units: u64,
    ) -> (result: Result<(), PushPackValidationError>)
        requires
            old(self).timed::<C>(),
        ensures
            final(self).timed::<C>(),
            final(self).options == old(self).options,
            final(self).range_operations == old(self).range_operations,
            final(self).external_operations == old(self).external_operations,
            result matches Err(error) ==> *final(self) == *old(self) && match error {
                PushPackValidationError::WorkBudget => W::answers(
                    if units == 0 {
                        1
                    } else {
                        units
                    },
                    false,
                ),
                PushPackValidationError::Cancelled => was_cancelled::<C>(),
                PushPackValidationError::Deadline => was_untimely::<C>(old(self).options),
                _ => false,
            },
            charge_follows::<C, W>(*old(self), *final(self), units, result),
    {
        let units: u64 = if units == 0 {
            1
        } else {
            units
        };
        if !work.charge(units) {
            return Err(PushPackValidationError::WorkBudget);
        }
        let observation = control.observe();
        let accepted = self.accept(observation);
        assert(observation_follows::<C>(*old(self), *self, observation, accepted));
        accepted
    }

    /// Accept one observation: not cancelled, within the request times and not before the latest.
    pub fn accept(&mut self, observation: PushPackValidationObservation) -> (result: Result<
        (),
        PushPackValidationError,
    >)
        ensures
            result == old(self).acceptance(observation),
            *final(self) == old(self).after(observation),
    {
        if observation.cancelled {
            return Err(PushPackValidationError::Cancelled);
        }
        if observation.observed_at.unix_nanos < self.options.started_at.unix_nanos
            || observation.observed_at.unix_nanos >= self.options.deadline.unix_nanos {
            return Err(PushPackValidationError::Deadline);
        }
        if let Some(previous) = self.last_observed_at {
            if observation.observed_at.unix_nanos < previous.unix_nanos {
                return Err(PushPackValidationError::Deadline);
            }
        }
        self.last_observed_at = Some(observation.observed_at);
        Ok(())
    }

    /// Count one range read.
    pub fn range_operation(&mut self) -> (result: Result<(), PushPackValidationError>)
        ensures
            result == if old(self).range_operations < old(self).options.limits.max_range_operations {
                Ok::<(), PushPackValidationError>(())
            } else {
                Err(PushPackValidationError::WorkBudget)
            },
            result is Err ==> *final(self) == *old(self),
            result is Ok ==> *final(self) == (ValidationCheckpoint {
                range_operations: (old(self).range_operations + 1) as u64,
                ..*old(self)
            }),
    {
        if self.range_operations >= self.options.limits.max_range_operations {
            return Err(PushPackValidationError::WorkBudget);
        }
        self.range_operations = self.range_operations + 1;
        Ok(())
    }

    /// Count one base lookup.
    pub fn external_operation(&mut self) -> (result: Result<(), PushPackValidationError>)
        ensures
            result == if old(self).external_operations < old(self).options.limits.max_external_operations {
                Ok::<(), PushPackValidationError>(())
            } else {
                Err(PushPackValidationError::WorkBudget)
            },
            result is Err ==> *final(self) == *old(self),
            result is Ok ==> *final(self) == (ValidationCheckpoint {
                external_operations: (old(self).external_operations + 1) as u64,
                ..*old(self)
            }),
    {
        if self.external_operations >= self.options.limits.max_external_operations {
            return Err(PushPackValidationError::WorkBudget);
        }
        self.external_operations = self.external_operations + 1;
        Ok(())
    }
}

/// As many reads were counted as were asked for.
pub open spec fn reads_counted(
    start: ValidationCheckpoint,
    end: ValidationCheckpoint,
    before: Seq<(QuarantineFence, u64, usize)>,
    after: Seq<(QuarantineFence, u64, usize)>,
) -> bool {
    end.range_operations - start.range_operations == after.len() - before.len()
}

/// Read exactly `length` bytes; longer reads than one chunk are refused.
fn read_exact<Q: PackQuarantine, C: PushPackValidationControl, W: PushPackValidationWork>(
    quarantine: &mut Q,
    fence: QuarantineFence,
    offset: u64,
    length: usize,
    checkpoint: &mut ValidationCheckpoint,
    control: &mut C,
    work: &mut W,
) -> (result: Result<Vec<u8>, PushPackValidationError>)
    requires
        old(checkpoint).timed::<C>(),
    ensures
        final(quarantine).content() == old(quarantine).content(),
        final(quarantine).steps() == old(quarantine).steps(),
        reads_under(fence, old(quarantine).ranges(), final(quarantine).ranges()),
        final(quarantine).writes() == old(quarantine).writes(),
        result is Ok ==> reads_counted(
            *old(checkpoint),
            *final(checkpoint),
            old(quarantine).ranges(),
            final(quarantine).ranges(),
        ),
        final(checkpoint).options == old(checkpoint).options,
        final(checkpoint).external_operations == old(checkpoint).external_operations,
        final(checkpoint).timed::<C>(),
        length <= MAX_PREFIX_BYTES ==> (result matches Err(error) ==> reading_explained::<Q, C, W>(
            fence,
            *old(checkpoint),
            old(quarantine).ranges(),
            final(quarantine).ranges(),
            error,
        )),
        length <= old(checkpoint).options.range_chunk_bytes ==> (result matches Err(
            error,
        ) ==> reading_explained::<Q, C, W>(
            fence,
            *old(checkpoint),
            old(quarantine).ranges(),
            final(quarantine).ranges(),
            error,
        ) && error
            != PushPackValidationError::InvalidLimits),
        length > old(checkpoint).options.range_chunk_bytes ==> result == Err::<
            Vec<u8>,
            PushPackValidationError,
        >(PushPackValidationError::InvalidLimits),
        result is Ok ==> {
            &&& result->Ok_0@.len() == length
            &&& offset + length <= old(quarantine).content().len()
            &&& result->Ok_0@ == old(quarantine).content().subrange(
                offset as int,
                offset + length,
            )
        },
{
    if length > checkpoint.options.range_chunk_bytes {
        return Err(PushPackValidationError::InvalidLimits);
    }
    checkpoint.range_operation()?;
    checkpoint.charge(control, work, length as u64)?;
    let bytes: Vec<u8> = match quarantine.read_range(fence, offset, length) {
        Ok(bytes) => bytes,
        Err(_) => {
            return Err(PushPackValidationError::Quarantine);
        },
    };
    checkpoint.charge(control, work, 1)?;
    if bytes.len() != length {
        return Err(PushPackValidationError::Quarantine);
    }
    Ok(bytes)
}

/// Read one byte before `end`.
fn read_byte<Q: PackQuarantine, C: PushPackValidationControl, W: PushPackValidationWork>(
    quarantine: &mut Q,
    fence: QuarantineFence,
    cursor: u64,
    end: u64,
    checkpoint: &mut ValidationCheckpoint,
    control: &mut C,
    work: &mut W,
) -> (result: Result<u8, PushPackValidationError>)
    requires
        old(checkpoint).timed::<C>(),
    ensures
        final(quarantine).content() == old(quarantine).content(),
        final(quarantine).steps() == old(quarantine).steps(),
        reads_under(fence, old(quarantine).ranges(), final(quarantine).ranges()),
        final(quarantine).writes() == old(quarantine).writes(),
        result is Ok ==> reads_counted(
            *old(checkpoint),
            *final(checkpoint),
            old(quarantine).ranges(),
            final(quarantine).ranges(),
        ),
        final(checkpoint).options == old(checkpoint).options,
        final(checkpoint).external_operations == old(checkpoint).external_operations,
        final(checkpoint).timed::<C>(),
        result matches Err(error) ==> reading_explained::<Q, C, W>(
            fence,
            *old(checkpoint),
            old(quarantine).ranges(),
            final(quarantine).ranges(),
            error,
        )
            || cursor >= end && error == PushPackValidationError::InvalidHeader,
        cursor >= end ==> result == Err::<u8, PushPackValidationError>(
            PushPackValidationError::InvalidHeader,
        ),
        result is Ok ==> cursor < end && cursor < old(quarantine).content().len() && result->Ok_0
            == old(quarantine).content()[cursor as int],
{
    if cursor >= end {
        return Err(PushPackValidationError::InvalidHeader);
    }
    let bytes: Vec<u8> = read_exact(quarantine, fence, cursor, 1, checkpoint, control, work)?;
    proof {
        assert(bytes@[0] == quarantine.content()[cursor as int]);
    }
    Ok(bytes[0])
}

/// Read a canonical entry header byte by byte.
fn read_entry_header<Q: PackQuarantine, C: PushPackValidationControl, W: PushPackValidationWork>(
    quarantine: &mut Q,
    fence: QuarantineFence,
    start: u64,
    end: u64,
    checkpoint: &mut ValidationCheckpoint,
    control: &mut C,
    work: &mut W,
) -> (result: Result<(u8, u64, u64), PushPackValidationError>)
    requires
        old(checkpoint).timed::<C>(),
    ensures
        final(quarantine).content() == old(quarantine).content(),
        final(quarantine).steps() == old(quarantine).steps(),
        reads_under(fence, old(quarantine).ranges(), final(quarantine).ranges()),
        final(quarantine).writes() == old(quarantine).writes(),
        result is Ok ==> reads_counted(
            *old(checkpoint),
            *final(checkpoint),
            old(quarantine).ranges(),
            final(quarantine).ranges(),
        ),
        final(checkpoint).options == old(checkpoint).options,
        final(checkpoint).external_operations == old(checkpoint).external_operations,
        final(checkpoint).timed::<C>(),
        result matches Err(error) ==> reading_explained::<Q, C, W>(
            fence,
            *old(checkpoint),
            old(quarantine).ranges(),
            final(quarantine).ranges(),
            error,
        )
            || error == PushPackValidationError::InvalidHeader && header_unreadable(
            old(quarantine).content(),
            start as int,
            end as int,
        ),
        result is Ok ==> {
            let (code, size, length) = result->Ok_0;
            &&& code < 8
            &&& holds_at(old(quarantine).content(), start as int, entry_header(code, size as nat))
            &&& length == entry_header(code, size as nat).len()
            &&& start + length <= end
        },
{
    assert(start >= end ==> header_breaks(quarantine.content(), start as int, end as int, 0));
    let first: u8 = read_byte(quarantine, fence, start, end, checkpoint, control, work)?;
    let mut seen: Vec<u8> = Vec::new();
    seen.push(first);
    let mut byte: u8 = first;
    let ghost pack = quarantine.content();
    assert(seen@ =~= pack.subrange(start as int, start + seen@.len()));
    while byte >= 128
        invariant
            quarantine.content() == pack,
            quarantine.steps() == old(quarantine).steps(),
            reads_under(fence, old(quarantine).ranges(), quarantine.ranges()),
            quarantine.writes() == old(quarantine).writes(),
            reads_counted(
                *old(checkpoint),
                *checkpoint,
                old(quarantine).ranges(),
                quarantine.ranges(),
            ),
            pack == old(quarantine).content(),
            checkpoint.options == old(checkpoint).options,
            checkpoint.external_operations == old(checkpoint).external_operations,
            checkpoint.timed::<C>(),
            1 <= seen@.len() <= 10,
            start + seen@.len() <= end,
            start + seen@.len() <= pack.len(),
            seen@ == pack.subrange(start as int, start + seen@.len()),
            byte == seen@[seen@.len() - 1],
            announcing(pack, start as int, seen@.len() - 1),
        decreases 10 - seen@.len(),
    {
        let length: usize = seen.len();
        proof {
            assert(seen@[length - 1] == pack[start + length - 1]);
            assert(announcing(pack, start as int, length as int));
            assert(start + length >= end ==> header_breaks(
                pack,
                start as int,
                end as int,
                length as int,
            ));
        }
        byte =
        read_byte(quarantine, fence, start + length as u64, end, checkpoint, control, work)?;
        if length >= 10 || (length == 9 && byte % 128 > 15) {
            assert(header_breaks(pack, start as int, end as int, length as int));
            return Err(PushPackValidationError::InvalidHeader);
        }
        seen.push(byte);
        assert(seen@ =~= pack.subrange(start as int, start + seen@.len()));
    }
    let ghost before = seen@.len() - 1;
    proof {
        assert(seen@[before] == pack[start + before]);
        assert(pack.subrange(start as int, start + before + 1) == seen@);
        assert(no_header(seen@) ==> header_breaks(pack, start as int, end as int, before));
        assert forall|code: u8, size: nat| seen@ == #[trigger] entry_header(code, size) implies holds_at(
            seen@,
            0,
            entry_header(code, size),
        ) by {
            assert(seen@.subrange(0, seen@.len() as int) =~= seen@);
        }
    }
    match read_entry_header_at(seen.as_slice(), 0) {
        Some(header) => {
            if header.next != seen.len() {
                proof {
                    assert forall|code: u8, size: nat| code < 8 && size < two64() implies seen@
                        != #[trigger] entry_header(code, size) by {
                        if seen@ == entry_header(code, size) {
                            crate::varint::law_entry_header_spells_one_entry(
                                seen@,
                                0,
                                code,
                                size,
                                header.code,
                                header.size as nat,
                            );
                        }
                    }
                }
                return Err(PushPackValidationError::InvalidHeader);
            }
            proof {
                let encoded = entry_header(header.code, header.size as nat);
                assert(seen@.subrange(0, encoded.len() as int) =~= seen@);
            }
            Ok((header.code, header.size, seen.len() as u64))
        },
        None => Err(PushPackValidationError::InvalidHeader),
    }
}

/// Read an OFS distance byte by byte.
///
/// A first byte that only announces more is refused, so distances from 128 to 255 never pass.
fn read_ofs_distance<Q: PackQuarantine, C: PushPackValidationControl, W: PushPackValidationWork>(
    quarantine: &mut Q,
    fence: QuarantineFence,
    start: u64,
    end: u64,
    checkpoint: &mut ValidationCheckpoint,
    control: &mut C,
    work: &mut W,
) -> (result: Result<(u64, u64), PushPackValidationError>)
    requires
        old(checkpoint).timed::<C>(),
    ensures
        final(quarantine).content() == old(quarantine).content(),
        final(quarantine).steps() == old(quarantine).steps(),
        reads_under(fence, old(quarantine).ranges(), final(quarantine).ranges()),
        final(quarantine).writes() == old(quarantine).writes(),
        result is Ok ==> reads_counted(
            *old(checkpoint),
            *final(checkpoint),
            old(quarantine).ranges(),
            final(quarantine).ranges(),
        ),
        final(checkpoint).options == old(checkpoint).options,
        final(checkpoint).external_operations == old(checkpoint).external_operations,
        final(checkpoint).timed::<C>(),
        result matches Err(error) ==> reading_explained::<Q, C, W>(
            fence,
            *old(checkpoint),
            old(quarantine).ranges(),
            final(quarantine).ranges(),
            error,
        )
            || error == PushPackValidationError::InvalidHeader && distance_unreadable(
            old(quarantine).content(),
            start as int,
            end as int,
        ),
        result is Ok ==> {
            let (distance, length) = result->Ok_0;
            &&& distance > 0
            &&& 0 < length <= 16
            &&& start + length <= end
            &&& start + length <= old(quarantine).content().len()
            &&& ofs_fold(old(quarantine).content().subrange(start as int, start + length))
                == distance
            &&& distance_read(
                old(quarantine).content(),
                start as int,
                length as int,
                distance as int,
            )
        },
{
    assert(start >= end ==> distance_breaks(quarantine.content(), start as int, end as int, 0));
    let first: u8 = read_byte(quarantine, fence, start, end, checkpoint, control, work)?;
    let ghost pack = quarantine.content();
    let mut byte: u8 = first;
    let mut value: u64 = (first % 128) as u64;
    let mut length: u64 = 1;
    if first >= 128 && value == 0 {
        proof {
            assert(first == 128);
            assert(announcing(pack, start as int, 1));
            assert(distance_breaks(pack, start as int, end as int, 1));
        }
        return Err(PushPackValidationError::InvalidHeader);
    }
    proof {
        let one = pack.subrange(start as int, start + 1);
        assert(one.drop_last() =~= Seq::<u8>::empty());
        reveal_with_fuel(ofs_fold, 2);
    }
    while byte >= 128
        invariant
            quarantine.content() == pack,
            quarantine.steps() == old(quarantine).steps(),
            reads_under(fence, old(quarantine).ranges(), quarantine.ranges()),
            quarantine.writes() == old(quarantine).writes(),
            reads_counted(
                *old(checkpoint),
                *checkpoint,
                old(quarantine).ranges(),
                quarantine.ranges(),
            ),
            pack == old(quarantine).content(),
            checkpoint.options == old(checkpoint).options,
            checkpoint.external_operations == old(checkpoint).external_operations,
            checkpoint.timed::<C>(),
            1 <= length <= 16,
            start + length <= end,
            start + length <= pack.len(),
            ofs_fold(pack.subrange(start as int, start + length)) == value,
            byte == pack[start + length - 1],
            announcing(pack, start as int, length - 1),
        decreases 17 - length,
    {
        proof {
            assert(announcing(pack, start as int, length as int));
            assert(length >= 16 || start + length >= end || value >= 0x1ff_ffff_ffff_ffff
                ==> distance_breaks(pack, start as int, end as int, length as int));
        }
        if length >= MAX_ENTRY_HEADER_BYTES as u64 {
            return Err(PushPackValidationError::InvalidHeader);
        }
        byte = read_byte(quarantine, fence, start + length, end, checkpoint, control, work)?;
        if value >= 0x1ff_ffff_ffff_ffff {
            return Err(PushPackValidationError::InvalidHeader);
        }
        proof {
            let longer = pack.subrange(start as int, start + length + 1);
            assert(longer.drop_last() =~= pack.subrange(start as int, start + length));
        }
        value = (value + 1) * 128 + (byte % 128) as u64;
        length = length + 1;
    }
    if value == 0 {
        assert(distance_breaks(pack, start as int, end as int, length - 1));
        return Err(PushPackValidationError::InvalidHeader);
    }
    Ok((value, length))
}

/// Read the next chunk of a stream that goes no further than `end`.
fn read_chunk<Q: PackQuarantine, C: PushPackValidationControl, W: PushPackValidationWork>(
    quarantine: &mut Q,
    fence: QuarantineFence,
    at: u64,
    end: u64,
    checkpoint: &mut ValidationCheckpoint,
    control: &mut C,
    work: &mut W,
) -> (result: Result<Vec<u8>, PushPackValidationError>)
    requires
        old(checkpoint).timed::<C>(),
        old(checkpoint).options.range_chunk_bytes > 0,
    ensures
        final(quarantine).content() == old(quarantine).content(),
        final(quarantine).steps() == old(quarantine).steps(),
        reads_under(fence, old(quarantine).ranges(), final(quarantine).ranges()),
        final(quarantine).writes() == old(quarantine).writes(),
        result is Ok ==> reads_counted(
            *old(checkpoint),
            *final(checkpoint),
            old(quarantine).ranges(),
            final(quarantine).ranges(),
        ),
        final(checkpoint).options == old(checkpoint).options,
        final(checkpoint).external_operations == old(checkpoint).external_operations,
        final(checkpoint).timed::<C>(),
        result matches Err(error) ==> reading_explained::<Q, C, W>(
            fence,
            *old(checkpoint),
            old(quarantine).ranges(),
            final(quarantine).ranges(),
            error,
        )
            || at >= end && error == PushPackValidationError::InvalidCompressedStream,
        at >= end ==> result == Err::<Vec<u8>, PushPackValidationError>(
            PushPackValidationError::InvalidCompressedStream,
        ),
        result is Ok ==> {
            let length = result->Ok_0@.len();
            &&& 0 < length
            &&& at + length <= end
            &&& at + length <= old(quarantine).content().len()
            &&& result->Ok_0@ == old(quarantine).content().subrange(at as int, at + length)
        },
{
    if at >= end {
        return Err(PushPackValidationError::InvalidCompressedStream);
    }
    let available: u64 = end - at;
    let length: usize = if available < checkpoint.options.range_chunk_bytes as u64 {
        available as usize
    } else {
        checkpoint.options.range_chunk_bytes
    };
    read_exact(quarantine, fence, at, length, checkpoint, control, work)
}

/// What inflating one stream yields.
struct InflateResult {
    compressed_bytes: u64,
    crc32: u32,
    collected: Option<Vec<u8>>,
    oid: Option<ObjectId>,
}

/// Inflate the one zlib stream that starts at `offset`.
fn inflate_one<Q: PackQuarantine, C: PushPackValidationControl, W: PushPackValidationWork>(
    quarantine: &mut Q,
    fence: QuarantineFence,
    offset: u64,
    end: u64,
    declared_size: u64,
    collect: bool,
    direct_kind: Option<ObjectKind>,
    entry_prefix: &[u8],
    hash_algo: HashAlgo,
    checkpoint: &mut ValidationCheckpoint,
    control: &mut C,
    work: &mut W,
) -> (result: Result<InflateResult, PushPackValidationError>)
    requires
        old(checkpoint).timed::<C>(),
        old(checkpoint).options.range_chunk_bytes > 0,
    ensures
        final(quarantine).content() == old(quarantine).content(),
        final(quarantine).steps() == old(quarantine).steps(),
        reads_under(fence, old(quarantine).ranges(), final(quarantine).ranges()),
        final(quarantine).writes() == old(quarantine).writes(),
        result is Ok ==> reads_counted(
            *old(checkpoint),
            *final(checkpoint),
            old(quarantine).ranges(),
            final(quarantine).ranges(),
        ),
        final(checkpoint).options == old(checkpoint).options,
        final(checkpoint).external_operations == old(checkpoint).external_operations,
        final(checkpoint).timed::<C>(),
        result matches Err(error) ==> reading_explained::<Q, C, W>(
            fence,
            *old(checkpoint),
            old(quarantine).ranges(),
            final(quarantine).ranges(),
            error,
        )
            || stream_refused(
            old(quarantine).content(),
            hash_algo,
            offset as int,
            end as int,
            declared_size,
            direct_kind,
            error,
        ),
        result is Ok ==> {
            let inflated = result->Ok_0;
            let stop = offset + inflated.compressed_bytes;
            let stream = old(quarantine).content().subrange(offset as int, stop);
            &&& stop <= end
            &&& stop <= old(quarantine).content().len()
            &&& zlib_decoded(stream) is Some
            &&& zlib_decoded(stream)->0.len() == declared_size
            &&& inflated.crc32 == crc32_of(entry_prefix@ + stream)
            &&& collect == (inflated.collected is Some)
            &&& collect ==> inflated.collected->0@ == zlib_decoded(
                stream,
            )->0
            &&& direct_kind is Some ==> inflated.oid == Some(
                canonical_id(hash_algo, direct_kind->0, zlib_decoded(stream)->0),
            ) && inflated.oid->0.spec_algo() == hash_algo
        },
{
    let ghost pack = quarantine.content();
    reveal(stream_refused);
    let mut decoder = decompress_new();
    let mut output: Vec<u8> = zeroed(INFLATE_BUFFER_BYTES);
    let mut collected: Vec<u8> = Vec::new();
    let mut crc = EntryChecksum::new();
    crc.update(entry_prefix);
    let mut hasher = StreamHasher::new(hash_algo);
    if let Some(kind) = direct_kind {
        let header: Vec<u8> = object_header_bytes(kind, declared_size);
        hasher.update(header.as_slice());
    }
    let ghost announced = hasher.absorbed();
    assert(inflating(decoder, pack, offset as int));
    let mut input: Vec<u8> = read_chunk(quarantine, fence, offset, end, checkpoint, control, work)?;
    let mut input_cursor: usize = 0;
    let mut consumed_total: u64 = 0;
    let mut produced_total: u64 = 0;
    proof {
        assert(pack.subrange(offset as int, offset as int) =~= Seq::<u8>::empty());
        assert(crc.absorbed() =~= entry_prefix@ + Seq::<u8>::empty());
        assert(announced + Seq::<u8>::empty() =~= announced);
        assert(input@.skip(0) =~= input@);
    }
    loop
        invariant
            quarantine.content() == pack,
            quarantine.steps() == old(quarantine).steps(),
            reads_under(fence, old(quarantine).ranges(), quarantine.ranges()),
            quarantine.writes() == old(quarantine).writes(),
            reads_counted(
                *old(checkpoint),
                *checkpoint,
                old(quarantine).ranges(),
                quarantine.ranges(),
            ),
            pack == old(quarantine).content(),
            checkpoint.options == old(checkpoint).options,
            checkpoint.external_operations == old(checkpoint).external_operations,
            checkpoint.timed::<C>(),
            checkpoint.options.range_chunk_bytes > 0,
            output@.len() == INFLATE_BUFFER_BYTES,
            input_cursor <= input@.len(),
            offset + consumed_total + (input@.len() - input_cursor) <= pack.len(),
            offset + consumed_total + (input@.len() - input_cursor) <= end,
            input@.skip(input_cursor as int) == pack.subrange(
                offset + consumed_total,
                offset + consumed_total + (input@.len() - input_cursor),
            ),
            inflate_input(decoder) == pack.subrange(offset as int, offset + consumed_total),
            inflate_input(decoder).len() == consumed_total,
            inflate_output(decoder).len() == produced_total,
            produced_total <= declared_size,
            crc.absorbed() == entry_prefix@ + inflate_input(decoder),
            hasher.spec_algo() == hash_algo,
            direct_kind is Some ==> announced == object_header(
                direct_kind->0,
                declared_size as nat,
            ),
            direct_kind is Some ==> hasher.absorbed() == announced + inflate_output(decoder),
            collect ==> collected@ == inflate_output(decoder),
        decreases (end - offset - consumed_total) + (declared_size - produced_total),
    {
        reveal(stream_refused);
        if input_cursor == input.len() {
            assert(inflating(decoder, pack, offset as int));
            input =
            read_chunk(
                quarantine,
                fence,
                offset + consumed_total,
                end,
                checkpoint,
                control,
                work,
            )?;
            input_cursor = 0;
            assert(input@.skip(0) =~= input@);
        }
        let rest: Vec<u8> = copy_range(input.as_slice(), input_cursor, input.len());
        assert(rest@ =~= input@.skip(input_cursor as int));
        let ghost before_in = inflate_input(decoder);
        let ghost before_out = inflate_output(decoder);
        assert(fed(decoder, rest@, pack, offset as int));
        let status = match decompress_step(&mut decoder, rest.as_slice(), &mut output, false) {
            Ok(status) => status,
            Err(_) => {
                return Err(PushPackValidationError::InvalidCompressedStream);
            },
        };
        let all_in: u64 = decompress_total_in(&decoder);
        let all_out: u64 = decompress_total_out(&decoder);
        let consumed: usize = (all_in - consumed_total) as usize;
        let produced: usize = (all_out - produced_total) as usize;
        if consumed == 0 && produced == 0 {
            return Err(PushPackValidationError::InvalidCompressedStream);
        }
        let eaten: Vec<u8> = copy_range(rest.as_slice(), 0, consumed);
        crc.update(eaten.as_slice());
        proof {
            assert(eaten@ =~= rest@.take(consumed as int));
            assert(before_in + eaten@ =~= pack.subrange(offset as int, offset + all_in));
            assert(entry_prefix@ + before_in + eaten@ =~= entry_prefix@ + inflate_input(decoder));
            assert(input@.skip(input_cursor + consumed) =~= rest@.skip(consumed as int));
            assert(rest@.skip(consumed as int) =~= pack.subrange(
                offset + all_in,
                offset + all_in + (input@.len() - input_cursor - consumed),
            ));
        }
        input_cursor = input_cursor + consumed;
        consumed_total = all_in;
        checkpoint.charge(control, work, produced as u64)?;
        if all_out > declared_size {
            return Err(PushPackValidationError::ObjectSize);
        }
        let plain: Vec<u8> = copy_range(output.as_slice(), 0, produced);
        assert(plain@ =~= output@.take(produced as int));
        if direct_kind.is_some() {
            hasher.update(plain.as_slice());
            assert(announced + before_out + plain@ =~= announced + inflate_output(decoder));
        }
        if collect {
            append_bytes(&mut collected, plain.as_slice());
        }
        produced_total = all_out;
        if status == ZlibStatus::Ended {
            if all_out != declared_size {
                return Err(PushPackValidationError::ObjectSize);
            }
            let oid: Option<ObjectId> = if direct_kind.is_some() {
                let id: ObjectId = hasher.finish();
                if id.is_zero() {
                    assert(zero_stream(pack, offset as int, offset + all_in, hash_algo, direct_kind->0));
                    return Err(PushPackValidationError::InvalidPack);
                }
                Some(id)
            } else {
                None
            };
            return Ok(
                InflateResult {
                    compressed_bytes: all_in,
                    crc32: crc.finish(),
                    collected: if collect {
                        Some(collected)
                    } else {
                        None
                    },
                    oid,
                },
            );
        }
    }
}

/// The manifest describes a sealed PACK that was not validated yet.
pub open spec fn manifest_ready(manifest: QuarantineManifest, checksum: ObjectId) -> bool {
    &&& manifest.pack_bytes >= 12 + manifest.hash_algo.spec_len()
    &&& checksum.spec_algo() == manifest.hash_algo
    &&& !manifest.self_contained
    &&& manifest.index_checksum is None
}

/// Why a quarantine cannot be validated, before any byte is read.
pub open spec fn quarantine_fault(
    snapshot: QuarantineSnapshot,
    fence: QuarantineFence,
) -> Option<PushPackValidationError> {
    if snapshot.state != QuarantineState::Validated || snapshot.generation != fence.generation
        || snapshot.manifest is None {
        Some(PushPackValidationError::InvalidQuarantine)
    } else if snapshot.manifest->0.pack_checksum is None {
        Some(PushPackValidationError::InvalidPack)
    } else if !manifest_ready(snapshot.manifest->0, snapshot.manifest->0.pack_checksum->0) {
        Some(PushPackValidationError::InvalidQuarantine)
    } else {
        None
    }
}

/// Check that a manifest describes a sealed PACK that was not validated yet.
pub fn validate_manifest_shape(manifest: &QuarantineManifest, checksum: ObjectId) -> (result: Result<
    (),
    PushPackValidationError,
>)
    ensures
        result == if manifest_ready(*manifest, checksum) {
            Ok::<(), PushPackValidationError>(())
        } else {
            Err(PushPackValidationError::InvalidQuarantine)
        },
{
    if manifest.pack_bytes < 12 + manifest.hash_algo.len() as u64 || checksum.algo()
        != manifest.hash_algo || manifest.self_contained || manifest.index_checksum.is_some() {
        return Err(PushPackValidationError::InvalidQuarantine);
    }
    Ok(())
}

/// Bookkeeping bytes that each entry is accounted for.
pub open spec fn bookkeeping_bytes() -> nat {
    vstd::layout::size_of::<ParsedEntry>() + vstd::layout::size_of::<PushPackIndexRow>() + 128
}

/// Check that bookkeeping for `count` entries fits `maximum` bytes.
pub fn validate_index_budget(count: u32, maximum: u64) -> (result: Result<
    (),
    PushPackValidationError,
>)
    ensures
        result == if count * bookkeeping_bytes() <= maximum {
            Ok::<(), PushPackValidationError>(())
        } else {
            Err(PushPackValidationError::IndexLimit)
        },
{
    let entry: u128 = std::mem::size_of::<ParsedEntry>() as u128;
    let row: u128 = std::mem::size_of::<PushPackIndexRow>() as u128;
    let per_entry: u128 = entry + row + 128;
    proof {
        assert(per_entry * count <= 0x4_0000_0000_0000_0000 * 0x1_0000_0000) by (nonlinear_arith)
            requires
                per_entry <= 0x4_0000_0000_0000_0000,
                count <= 0xffff_ffff,
        ;
        assert(per_entry * count == count * per_entry) by (nonlinear_arith);
    }
    if per_entry * count as u128 > maximum as u128 {
        return Err(PushPackValidationError::IndexLimit);
    }
    Ok(())
}

/// The kind of a direct type code.
pub open spec fn kind_of_code(code: u8) -> Option<ObjectKind> {
    if code == 1 {
        Some(ObjectKind::Commit)
    } else if code == 2 {
        Some(ObjectKind::Tree)
    } else if code == 3 {
        Some(ObjectKind::Blob)
    } else if code == 4 {
        Some(ObjectKind::Tag)
    } else {
        None
    }
}

/// Return the kind of a direct type code.
pub fn object_kind(type_code: u8) -> (result: Result<ObjectKind, PushPackValidationError>)
    ensures
        result == match kind_of_code(type_code) {
            Some(kind) => Ok::<ObjectKind, PushPackValidationError>(kind),
            None => Err(PushPackValidationError::InvalidHeader),
        },
        result is Ok ==> result->Ok_0.code() == type_code,
{
    match type_code {
        1 => Ok(ObjectKind::Commit),
        2 => Ok(ObjectKind::Tree),
        3 => Ok(ObjectKind::Blob),
        4 => Ok(ObjectKind::Tag),
        _ => Err(PushPackValidationError::InvalidHeader),
    }
}

/// Read the two sizes that start a delta, and where its instructions start.
pub fn delta_sizes(delta: &[u8]) -> (result: Result<(u64, u64, usize), PushPackValidationError>)
    ensures
        match result {
            Ok((source, target, body)) => {
                &&& holds_at(delta@, 0, varint(source as nat))
                &&& holds_at(delta@, varint(source as nat).len() as int, varint(target as nat))
                &&& body == varint(source as nat).len() + varint(target as nat).len()
                &&& body <= delta@.len()
            },
            Err(error) => {
                &&& error == PushPackValidationError::DeltaLimit
                &&& forall|source: nat, target: nat|
                    source < two64() && target < two64() ==> !(#[trigger] holds_at(
                        delta@,
                        0,
                        varint(source),
                    ) && #[trigger] holds_at(
                        delta@,
                        varint(source).len() as int,
                        varint(target),
                    ))
            },
        },
{
    let first = match read_varint(delta, 0) {
        Some(first) => first,
        None => {
            return Err(PushPackValidationError::DeltaLimit);
        },
    };
    let second = match read_varint(delta, first.next) {
        Some(second) => second,
        None => {
            proof {
                assert forall|source: nat, target: nat|
                    source < two64() && target < two64() implies !(#[trigger] holds_at(
                    delta@,
                    0,
                    varint(source),
                ) && #[trigger] holds_at(
                    delta@,
                    varint(source).len() as int,
                    varint(target),
                )) by {
                    if holds_at(delta@, 0, varint(source)) {
                        crate::varint::law_varint_spells_one_number(
                            delta@,
                            0,
                            source,
                            first.value as nat,
                        );
                    }
                }
            }
            return Err(PushPackValidationError::DeltaLimit);
        },
    };
    Ok((first.value, second.value, second.next))
}

/// What one accepted delta costs.
#[derive(Clone, Copy, Debug, PartialEq, Eq, Structural)]
pub struct DeltaBudget {
    /// Delta depth of the result.
    pub depth: u32,
    /// Resolved-to-instruction ratio, rounded up.
    pub expansion: u64,
    /// Base cache bytes once the result is cached.
    pub cache_bytes: u64,
}

/// The resolved-to-instruction ratio, rounded up.
pub open spec fn expansion_of(result_size: int, instruction_size: int) -> int {
    if instruction_size <= 1 {
        result_size
    } else {
        (result_size + instruction_size - 1) / instruction_size
    }
}

/// One delta stays within every limit.
pub open spec fn delta_allowed(
    limits: ReceivePackLimits,
    base_kind: ObjectKind,
    base_size: u64,
    base_depth: u32,
    source_size: u64,
    result_size: u64,
    instruction_size: u64,
    cache_bytes: u64,
) -> bool {
    &&& source_size == base_size
    &&& result_size <= limits.max_object_bytes
    &&& base_kind != ObjectKind::Blob ==> result_size <= limits.max_metadata_memory_bytes
    &&& base_size + instruction_size + result_size <= limits.bytes_in_flight
    &&& cache_bytes + result_size <= limits.max_delta_base_memory_bytes
    &&& expansion_of(result_size as int, instruction_size as int)
        <= limits.max_delta_expansion_ratio
    &&& base_depth + 1 <= limits.max_delta_depth
}

/// Check one delta against every limit.
pub fn check_delta(
    limits: &ReceivePackLimits,
    base_kind: ObjectKind,
    base_size: u64,
    base_depth: u32,
    source_size: u64,
    result_size: u64,
    instruction_size: u64,
    cache_bytes: u64,
) -> (result: Result<DeltaBudget, PushPackValidationError>)
    ensures
        match result {
            Ok(budget) => {
                &&& delta_allowed(
                    *limits,
                    base_kind,
                    base_size,
                    base_depth,
                    source_size,
                    result_size,
                    instruction_size,
                    cache_bytes,
                )
                &&& budget.depth == base_depth + 1
                &&& budget.expansion == expansion_of(result_size as int, instruction_size as int)
                &&& budget.cache_bytes == cache_bytes + result_size
            },
            Err(error) => {
                &&& error == PushPackValidationError::DeltaLimit
                &&& !delta_allowed(
                    *limits,
                    base_kind,
                    base_size,
                    base_depth,
                    source_size,
                    result_size,
                    instruction_size,
                    cache_bytes,
                )
            },
        },
{
    let limit = PushPackValidationError::DeltaLimit;
    if source_size != base_size || result_size > limits.max_object_bytes {
        return Err(limit);
    }
    if base_kind != ObjectKind::Blob && result_size > limits.max_metadata_memory_bytes {
        return Err(limit);
    }
    let in_flight: u128 = base_size as u128 + instruction_size as u128 + result_size as u128;
    if in_flight > limits.bytes_in_flight as u128 {
        return Err(limit);
    }
    if cache_bytes > limits.max_delta_base_memory_bytes || result_size
        > limits.max_delta_base_memory_bytes - cache_bytes {
        return Err(limit);
    }
    let expansion: u64 = if instruction_size <= 1 {
        result_size
    } else {
        (result_size + (instruction_size - 1)) / instruction_size
    };
    if expansion > limits.max_delta_expansion_ratio {
        return Err(limit);
    }
    if base_depth >= limits.max_delta_depth {
        return Err(limit);
    }
    Ok(DeltaBudget { depth: base_depth + 1, expansion, cache_bytes: cache_bytes + result_size })
}

/// The reference belongs to the algorithm and is not all zeros.
pub open spec fn reference_valid(oid: ObjectId, algo: HashAlgo) -> bool {
    oid.spec_algo() == algo && !oid.spec_is_zero()
}

/// Check one reference.
pub fn valid_reference(oid: ObjectId, hash_algo: HashAlgo) -> (valid: bool)
    ensures
        valid == reference_valid(oid, hash_algo),
{
    oid.algo() == hash_algo && !oid.is_zero()
}

/// A parsed value is of the stated kind and refers only to valid identities.
pub open spec fn structure_valid(
    metadata: PushStructuralMetadata,
    kind: ObjectKind,
    algo: HashAlgo,
) -> bool {
    match metadata {
        PushStructuralMetadata::Commit(commit) => {
            &&& kind == ObjectKind::Commit
            &&& reference_valid(commit.tree, algo)
            &&& forall|i: int|
                0 <= i < commit.parents@.len() ==> reference_valid(
                    #[trigger] commit.parents@[i],
                    algo,
                )
        },
        PushStructuralMetadata::Tree(entries) => {
            &&& kind == ObjectKind::Tree
            &&& forall|i: int|
                0 <= i < entries@.len() ==> reference_valid((#[trigger] entries@[i]).oid, algo)
        },
        PushStructuralMetadata::Tag(tag) => {
            &&& kind == ObjectKind::Tag
            &&& reference_valid(tag.object, algo)
            &&& tag.object_type is Some
        },
    }
}

/// Check every parent.
fn parents_valid(parents: &Vec<ObjectId>, algo: HashAlgo) -> (valid: bool)
    ensures
        valid == (forall|i: int|
            0 <= i < parents@.len() ==> reference_valid(#[trigger] parents@[i], algo)),
{
    let mut at: usize = 0;
    while at < parents.len()
        invariant
            at <= parents@.len(),
            forall|i: int| 0 <= i < at ==> reference_valid(#[trigger] parents@[i], algo),
        decreases parents.len() - at,
    {
        if !valid_reference(parents[at], algo) {
            return false;
        }
        at = at + 1;
    }
    true
}

/// Check every tree entry.
fn tree_valid(entries: &Vec<TreeEntry>, algo: HashAlgo) -> (valid: bool)
    ensures
        valid == (forall|i: int|
            0 <= i < entries@.len() ==> reference_valid((#[trigger] entries@[i]).oid, algo)),
{
    let mut at: usize = 0;
    while at < entries.len()
        invariant
            at <= entries@.len(),
            forall|i: int| 0 <= i < at ==> reference_valid((#[trigger] entries@[i]).oid, algo),
        decreases entries.len() - at,
    {
        if !valid_reference(entries[at].oid, algo) {
            return false;
        }
        at = at + 1;
    }
    true
}

/// Check one parsed value.
fn check_structure(
    metadata: &PushStructuralMetadata,
    kind: ObjectKind,
    algo: HashAlgo,
) -> (valid: bool)
    ensures
        valid == structure_valid(*metadata, kind, algo),
{
    match metadata {
        PushStructuralMetadata::Commit(commit) => kind == ObjectKind::Commit && valid_reference(
            commit.tree,
            algo,
        ) && parents_valid(&commit.parents, algo),
        PushStructuralMetadata::Tree(entries) => kind == ObjectKind::Tree && tree_valid(
            entries,
            algo,
        ),
        PushStructuralMetadata::Tag(tag) => kind == ObjectKind::Tag && valid_reference(
            tag.object,
            algo,
        ) && tag.object_type.is_some(),
    }
}

/// The memory that a structural object of `size` payload bytes is accounted for.
pub open spec fn structural_cost(size: int) -> int {
    size * 8 + 256
}

/// The counts after one more object of `kind`, other than a blob.
pub open spec fn counted(summary: PushValidationSummary, kind: ObjectKind) -> PushValidationSummary {
    match kind {
        ObjectKind::Commit => PushValidationSummary {
            commits: (summary.commits + 1) as u64,
            ..summary
        },
        ObjectKind::Tree => PushValidationSummary { trees: (summary.trees + 1) as u64, ..summary },
        ObjectKind::Tag => PushValidationSummary { tags: (summary.tags + 1) as u64, ..summary },
        ObjectKind::Blob => summary,
    }
}

/// How many objects of `kind` are counted.
pub open spec fn count_of(summary: PushValidationSummary, kind: ObjectKind) -> u64 {
    match kind {
        ObjectKind::Commit => summary.commits,
        ObjectKind::Tree => summary.trees,
        ObjectKind::Tag => summary.tags,
        ObjectKind::Blob => summary.blobs,
    }
}

/// Why a structural object is not retained, checked in order.
pub open spec fn structural_fault(
    kind: ObjectKind,
    size: int,
    parsed: Option<PushStructuralMetadata>,
    algo: HashAlgo,
    retained: u64,
    maximum: u64,
    summary: PushValidationSummary,
) -> Option<PushPackValidationError> {
    if structural_cost(size) > u64::MAX || retained + structural_cost(size) > maximum {
        Some(PushPackValidationError::ObjectSize)
    } else if parsed is None || !structure_valid(parsed->0, kind, algo) {
        Some(PushPackValidationError::InvalidStructuralObject)
    } else if count_of(summary, kind) == u64::MAX {
        Some(PushPackValidationError::IndexLimit)
    } else {
        None
    }
}

/// Retain one parsed structural object within its memory bound; blobs are never retained.
pub fn retain_parsed(
    oid: ObjectId,
    kind: ObjectKind,
    size: u64,
    parsed: Option<PushStructuralMetadata>,
    hash_algo: HashAlgo,
    output: &mut Vec<PushStructuralObject>,
    retained_bytes: &mut u64,
    maximum_bytes: u64,
    summary: &mut PushValidationSummary,
) -> (result: Result<(), PushPackValidationError>)
    ensures
        kind == ObjectKind::Blob ==> result is Ok && final(output)@ == old(output)@ && *final(retained_bytes) == *old(retained_bytes) && *final(summary) == *old(summary),
        kind != ObjectKind::Blob ==> match structural_fault(
            kind,
            size as int,
            parsed,
            hash_algo,
            *old(retained_bytes),
            maximum_bytes,
            *old(summary),
        ) {
            Some(error) => result == Err::<(), PushPackValidationError>(error) && final(output)@
                == old(output)@ && *final(retained_bytes) == *old(retained_bytes) && *final(summary)
                == *old(summary),
            None => {
                &&& result is Ok
                &&& final(output)@ == old(output)@.push(
                    PushStructuralObject { oid, metadata: parsed->0 },
                )
                &&& *final(retained_bytes) == *old(retained_bytes) + structural_cost(size as int)
                &&& *final(summary) == counted(*old(summary), kind)
            },
        },
{
    if kind == ObjectKind::Blob {
        return Ok(());
    }
    let total: u64 = structural_total(size, *retained_bytes, maximum_bytes)?;
    let metadata = match parsed {
        Some(metadata) => metadata,
        None => {
            return Err(PushPackValidationError::InvalidStructuralObject);
        },
    };
    if !check_structure(&metadata, kind, hash_algo) {
        return Err(PushPackValidationError::InvalidStructuralObject);
    }
    match kind {
        ObjectKind::Commit => {
            summary.commits = checked_add(summary.commits, 1)?;
        },
        ObjectKind::Tree => {
            summary.trees = checked_add(summary.trees, 1)?;
        },
        ObjectKind::Tag => {
            summary.tags = checked_add(summary.tags, 1)?;
        },
        ObjectKind::Blob => {},
    }
    output.push(PushStructuralObject { oid, metadata });
    *retained_bytes = total;
    Ok(())
}

/// The retained total with one more structural object, if it stays within the bound.
fn structural_total(size: u64, retained: u64, maximum: u64) -> (result: Result<
    u64,
    PushPackValidationError,
>)
    ensures
        result == if structural_cost(size as int) > u64::MAX || retained + structural_cost(
            size as int,
        ) > maximum {
            Err::<u64, PushPackValidationError>(PushPackValidationError::ObjectSize)
        } else {
            Ok((retained + structural_cost(size as int)) as u64)
        },
{
    assert(size as u128 * 8 <= 0x8_0000_0000_0000_0000);
    let cost: u128 = size as u128 * STRUCTURAL_MEMORY_MULTIPLIER as u128
        + STRUCTURAL_OBJECT_OVERHEAD as u128;
    let total: u128 = retained as u128 + cost;
    if cost > u64::MAX as u128 || total > maximum as u128 {
        return Err(PushPackValidationError::ObjectSize);
    }
    Ok(total as u64)
}

/// A structural object holds what the parser made of a payload, and its references are valid.
pub open spec fn kept_for<S: StructuralParser>(
    object: PushStructuralObject,
    oid: ObjectId,
    kind: ObjectKind,
    payload: Seq<u8>,
    algo: HashAlgo,
) -> bool {
    &&& object.oid == oid
    &&& structure_valid(object.metadata, kind, algo)
    &&& S::parses(kind, payload, algo, Some(object.metadata))
}

/// One object was added for a payload other than a blob's.
spec fn retained_for<S: StructuralParser>(
    before: Seq<PushStructuralObject>,
    after: Seq<PushStructuralObject>,
    oid: ObjectId,
    kind: ObjectKind,
    payload: Seq<u8>,
    algo: HashAlgo,
) -> bool {
    if kind == ObjectKind::Blob {
        after == before
    } else {
        &&& after.len() == before.len() + 1
        &&& after == before.push(after[before.len() as int])
        &&& kept_for::<S>(after[before.len() as int], oid, kind, payload, algo)
    }
}

/// Parse and retain one structural object; an object over the memory bound is never parsed.
fn retain_structural<S: StructuralParser>(
    oid: ObjectId,
    kind: ObjectKind,
    data: &[u8],
    hash_algo: HashAlgo,
    parser: &mut S,
    output: &mut Vec<PushStructuralObject>,
    retained_bytes: &mut u64,
    maximum_bytes: u64,
    summary: &mut PushValidationSummary,
) -> (result: Result<(), PushPackValidationError>)
    ensures
        result matches Err(error) ==> {
            ||| kind != ObjectKind::Blob && error == PushPackValidationError::ObjectSize && (
            structural_cost(data@.len() as int) > u64::MAX || *old(retained_bytes)
                + structural_cost(data@.len() as int) > maximum_bytes)
            ||| kind != ObjectKind::Blob && error
                == PushPackValidationError::InvalidStructuralObject && exists|
                parsed: Option<PushStructuralMetadata>,
            | #[trigger]
                S::parses(kind, data@, hash_algo, parsed) && (parsed is None || !structure_valid(
                    parsed->0,
                    kind,
                    hash_algo,
                ))
            ||| kind != ObjectKind::Blob && error == PushPackValidationError::IndexLimit
                && count_of(*old(summary), kind) == u64::MAX
        },
        result is Ok ==> *final(retained_bytes) == *old(retained_bytes) + if kind
            == ObjectKind::Blob {
            0
        } else {
            structural_cost(data@.len() as int)
        },
        result is Ok ==> *final(summary) == counted(*old(summary), kind),
        result is Ok ==> kind == ObjectKind::Blob || count_of(*old(summary), kind) < u64::MAX,
        result is Ok ==> retained_for::<S>(
            old(output)@,
            final(output)@,
            oid,
            kind,
            data@,
            hash_algo,
        ),
{
    if kind == ObjectKind::Blob {
        return Ok(());
    }
    let _total: u64 = structural_total(data.len() as u64, *retained_bytes, maximum_bytes)?;
    let parsed = parser.parse(kind, data, hash_algo);
    retain_parsed(
        oid,
        kind,
        data.len() as u64,
        parsed,
        hash_algo,
        output,
        retained_bytes,
        maximum_bytes,
        summary,
    )
}

/// Add to one count.
fn checked_add(current: u64, additional: u64) -> (result: Result<u64, PushPackValidationError>)
    ensures
        result == if current + additional > u64::MAX {
            Err::<u64, PushPackValidationError>(PushPackValidationError::IndexLimit)
        } else {
            Ok((current + additional) as u64)
        },
{
    match current.checked_add(additional) {
        Some(sum) => Ok(sum),
        None => Err(PushPackValidationError::IndexLimit),
    }
}

/// The bytes that one row contributes to the index checksum.
pub open spec fn row_bytes(row: PushPackIndexRow) -> Seq<u8> {
    row.oid@ + be_bytes(row.entry.offset as int, 8) + be_bytes(row.entry.length as int, 8)
        + be_bytes(row.resolved_size as int, 8) + be_bytes(row.crc32 as int, 4)
}

/// The bytes that all rows contribute to the index checksum.
pub open spec fn rows_bytes(rows: Seq<PushPackIndexRow>) -> Seq<u8>
    decreases rows.len(),
{
    if rows.len() == 0 {
        Seq::empty()
    } else {
        rows_bytes(rows.drop_last()) + row_bytes(rows.last())
    }
}

/// The length that the index checksum's header declares.
pub open spec fn index_payload_len(count: int, algo: HashAlgo) -> int {
    count * (algo.spec_len() + 28) + algo.spec_len()
}

/// The checksum of an index: a blob of the PACK checksum and every row.
pub open spec fn index_checksum_of(
    rows: Seq<PushPackIndexRow>,
    pack_checksum: ObjectId,
    algo: HashAlgo,
) -> ObjectId {
    hashed_id(
        algo,
        object_header(ObjectKind::Blob, index_payload_len(rows.len() as int, algo) as nat)
            + pack_checksum@ + rows_bytes(rows),
    )
}

/// Compute the checksum of an index.
pub fn index_checksum(
    rows: &Vec<PushPackIndexRow>,
    pack_checksum: ObjectId,
    hash_algo: HashAlgo,
) -> (result: Result<ObjectId, PushPackValidationError>)
    ensures
        result == if index_payload_len(rows@.len() as int, hash_algo) > u64::MAX {
            Err::<ObjectId, PushPackValidationError>(PushPackValidationError::IndexLimit)
        } else if index_checksum_of(rows@, pack_checksum, hash_algo).spec_is_zero() {
            Err(PushPackValidationError::InvalidPack)
        } else {
            Ok(index_checksum_of(rows@, pack_checksum, hash_algo))
        },
{
    let width: u128 = hash_algo.len() as u128;
    let count: u128 = rows.len() as u128;
    proof {
        assert(count * (width + 28) <= 0x1_0000_0000_0000_0000 * 60) by (nonlinear_arith)
            requires
                count <= 0x1_0000_0000_0000_0000,
                width <= 32,
        ;
        assert(rows@.len() * (hash_algo.spec_len() + 28) == count * (width + 28));
    }
    let payload: u128 = count * (width + 28) + width;
    if payload > u64::MAX as u128 {
        return Err(PushPackValidationError::IndexLimit);
    }
    let header: Vec<u8> = object_header_bytes(ObjectKind::Blob, payload as u64);
    let mut hasher = StreamHasher::new(hash_algo);
    hasher.update(header.as_slice());
    let checksum_bytes: Vec<u8> = pack_checksum.to_bytes();
    hasher.update(checksum_bytes.as_slice());
    let ghost front = object_header(ObjectKind::Blob, payload as nat) + pack_checksum@;
    let mut at: usize = 0;
    assert(hasher.absorbed() =~= front + rows_bytes(rows@.take(0)));
    while at < rows.len()
        invariant
            at <= rows@.len(),
            hasher.spec_algo() == hash_algo,
            hasher.absorbed() == front + rows_bytes(rows@.take(at as int)),
        decreases rows.len() - at,
    {
        let row = rows[at];
        let mut bytes: Vec<u8> = row.oid.to_bytes();
        push_be_u64(&mut bytes, row.entry.offset);
        push_be_u64(&mut bytes, row.entry.length);
        push_be_u64(&mut bytes, row.resolved_size);
        push_be_u32(&mut bytes, row.crc32);
        hasher.update(bytes.as_slice());
        proof {
            let next = rows@.take(at + 1);
            assert(next.drop_last() =~= rows@.take(at as int));
            assert(bytes@ =~= row_bytes(row));
            assert(front + rows_bytes(rows@.take(at as int)) + bytes@ =~= front + rows_bytes(next));
        }
        at = at + 1;
    }
    assert(rows@.take(at as int) =~= rows@);
    let id: ObjectId = hasher.finish();
    if id.is_zero() {
        return Err(PushPackValidationError::InvalidPack);
    }
    Ok(id)
}

/// How many entries are direct.
pub open spec fn count_direct(entries: Seq<ParsedEntry>) -> nat
    decreases entries.len(),
{
    if entries.len() == 0 {
        0
    } else {
        count_direct(entries.drop_last()) + if entries.last().dependency is Direct {
            1nat
        } else {
            0nat
        }
    }
}

/// How many entries are OFS-deltas.
pub open spec fn count_ofs(entries: Seq<ParsedEntry>) -> nat
    decreases entries.len(),
{
    if entries.len() == 0 {
        0
    } else {
        count_ofs(entries.drop_last()) + if entries.last().dependency is Ofs {
            1nat
        } else {
            0nat
        }
    }
}

/// The sum of all declared sizes.
pub open spec fn sum_declared(entries: Seq<ParsedEntry>) -> nat
    decreases entries.len(),
{
    if entries.len() == 0 {
        0
    } else {
        sum_declared(entries.drop_last()) + entries.last().declared_size as nat
    }
}

/// The accounted bytes of a resolution that is retained as structure.
pub open spec fn structural_share(resolved: Option<ResolvedEntry>) -> int {
    if resolved is Some && resolved->0.kind != ObjectKind::Blob {
        structural_cost(resolved->0.size as int)
    } else {
        0
    }
}

/// The accounted bytes of all entries that are retained as structure.
pub open spec fn sum_structural(entries: Seq<ParsedEntry>) -> int
    decreases entries.len(),
{
    if entries.len() == 0 {
        0
    } else {
        sum_structural(entries.drop_last()) + structural_share(entries.last().resolved)
    }
}

/// Resolving one entry adds its share.
proof fn lemma_structural_update(entries: Seq<ParsedEntry>, at: int, entry: ParsedEntry)
    requires
        0 <= at < entries.len(),
        entries[at].resolved is None,
    ensures
        sum_structural(entries.update(at, entry)) == sum_structural(entries) + structural_share(
            entry.resolved,
        ),
    decreases entries.len(),
{
    let after = entries.update(at, entry);
    if at == entries.len() - 1 {
        assert(after.drop_last() =~= entries.drop_last());
    } else {
        lemma_structural_update(entries.drop_last(), at, entry);
        assert(after.drop_last() =~= entries.drop_last().update(at, entry));
    }
}

/// No kind and no outside base is counted more often than there are entries.
proof fn lemma_counts_bounded(entries: Seq<ParsedEntry>)
    ensures
        forall|kind: ObjectKind| #[trigger] count_kind(entries, kind) <= entries.len(),
        count_outside(entries) <= entries.len(),
    decreases entries.len(),
{
    if entries.len() > 0 {
        lemma_counts_bounded(entries.drop_last());
        assert forall|kind: ObjectKind| #[trigger] count_kind(entries, kind) <= entries.len() by {
            assert(count_kind(entries.drop_last(), kind) <= entries.len() - 1);
        }
    }
}

/// The bytes of all cached payloads.
spec fn cached_sum(cache: Seq<Option<Vec<u8>>>) -> int
    decreases cache.len(),
{
    if cache.len() == 0 {
        0
    } else {
        cached_sum(cache.drop_last()) + cached_share(cache.last())
    }
}

/// The bytes of one cached payload.
spec fn cached_share(cached: Option<Vec<u8>>) -> int {
    match cached {
        Some(data) => data@.len() as int,
        None => 0,
    }
}

/// Caching one more payload adds its bytes.
proof fn lemma_cached_update(cache: Seq<Option<Vec<u8>>>, at: int, cached: Option<Vec<u8>>)
    requires
        0 <= at < cache.len(),
        cache[at] is None,
    ensures
        cached_sum(cache.update(at, cached)) == cached_sum(cache) + cached_share(cached),
    decreases cache.len(),
{
    let after = cache.update(at, cached);
    if at == cache.len() - 1 {
        assert(after.drop_last() =~= cache.drop_last());
    } else {
        lemma_cached_update(cache.drop_last(), at, cached);
        assert(after.drop_last() =~= cache.drop_last().update(at, cached));
    }
}

/// No more is cached than the payloads of resolved entries.
proof fn lemma_cached_held(
    entries: Seq<ParsedEntry>,
    cache: Seq<Option<Vec<u8>>>,
    payloads: Seq<Seq<u8>>,
)
    requires
        cache.len() == entries.len(),
        forall|i: int|
            0 <= i < cache.len() && (#[trigger] cache[i]) is Some ==> cache[i]->0@ == payloads[i]
                && entries[i].resolved is Some,
    ensures
        cached_sum(cache) <= held_bytes(entries, payloads),
    decreases entries.len(),
{
    if entries.len() > 0 {
        let last = entries.len() - 1;
        assert(cache[last] == cache.last());
        assert forall|i: int| 0 <= i < last && (#[trigger] cache.drop_last()[i]) is Some implies cache.drop_last()[i]->0@
            == payloads[i] && entries.drop_last()[i].resolved is Some by {
            assert(cache[i] is Some);
        }
        lemma_cached_held(entries.drop_last(), cache.drop_last(), payloads);
    }
}

/// How many entries are unresolved.
pub open spec fn count_open(entries: Seq<ParsedEntry>) -> nat
    decreases entries.len(),
{
    if entries.len() == 0 {
        0
    } else {
        count_open(entries.drop_last()) + if entries.last().resolved is None {
            1nat
        } else {
            0nat
        }
    }
}

/// One, if the resolution is of this kind.
pub open spec fn one_of(resolved: Option<ResolvedEntry>, kind: ObjectKind) -> int {
    if resolved is Some && resolved->0.kind == kind {
        1
    } else {
        0
    }
}

/// One, if the resolution's base came from outside.
pub open spec fn one_outside(resolved: Option<ResolvedEntry>) -> int {
    if resolved is Some && resolved->0.external {
        1
    } else {
        0
    }
}

/// Resolved entries of one kind.
pub open spec fn count_kind(entries: Seq<ParsedEntry>, kind: ObjectKind) -> int
    decreases entries.len(),
{
    if entries.len() == 0 {
        0
    } else {
        count_kind(entries.drop_last(), kind) + one_of(entries.last().resolved, kind)
    }
}

/// Resolved entries whose base came from outside.
pub open spec fn count_outside(entries: Seq<ParsedEntry>) -> int
    decreases entries.len(),
{
    if entries.len() == 0 {
        0
    } else {
        count_outside(entries.drop_last()) + one_outside(entries.last().resolved)
    }
}

/// The depth that a resolved entry adds to the largest one.
pub open spec fn depth_of(entry: ParsedEntry) -> int {
    match entry.resolved {
        Some(resolved) => resolved.depth as int,
        None => 0,
    }
}

/// The resolved-to-instruction ratio of a resolved delta.
pub open spec fn ratio_of(entry: ParsedEntry) -> int {
    match entry.resolved {
        Some(resolved) => if entry.dependency is Direct {
            0
        } else {
            expansion_of(resolved.size as int, entry.declared_size as int)
        },
        None => 0,
    }
}

/// The depth is the largest of the entries.
pub open spec fn deepest(depth: int, entries: Seq<ParsedEntry>) -> bool {
    &&& forall|i: int| 0 <= i < entries.len() ==> depth_of(#[trigger] entries[i]) <= depth
    &&& depth == 0 || exists|i: int|
        0 <= i < entries.len() && depth_of(#[trigger] entries[i]) == depth
}

/// The ratio is the largest of the entries.
pub open spec fn widest(ratio: int, entries: Seq<ParsedEntry>) -> bool {
    &&& forall|i: int| 0 <= i < entries.len() ==> ratio_of(#[trigger] entries[i]) <= ratio
    &&& ratio == 0 || exists|i: int|
        0 <= i < entries.len() && ratio_of(#[trigger] entries[i]) == ratio
}

/// The counts by kind, of outside bases and of delta extremes are those of the resolved entries.
pub open spec fn kinds_counted(
    summary: PushValidationSummary,
    entries: Seq<ParsedEntry>,
) -> bool {
    &&& summary.commits == count_kind(entries, ObjectKind::Commit)
    &&& summary.trees == count_kind(entries, ObjectKind::Tree)
    &&& summary.blobs == count_kind(entries, ObjectKind::Blob)
    &&& summary.tags == count_kind(entries, ObjectKind::Tag)
    &&& summary.external_bases == count_outside(entries)
    &&& deepest(summary.maximum_delta_depth as int, entries)
    &&& widest(summary.maximum_delta_expansion_ratio as int, entries)
}

/// The counts already hold one more resolution than the entries.
spec fn kinds_ahead(
    summary: PushValidationSummary,
    entries: Seq<ParsedEntry>,
    entry: ParsedEntry,
) -> bool {
    let resolved = entry.resolved;
    &&& summary.commits == count_kind(entries, ObjectKind::Commit) + one_of(
        resolved,
        ObjectKind::Commit,
    )
    &&& summary.trees == count_kind(entries, ObjectKind::Tree) + one_of(resolved, ObjectKind::Tree)
    &&& summary.blobs == count_kind(entries, ObjectKind::Blob) + one_of(resolved, ObjectKind::Blob)
    &&& summary.tags == count_kind(entries, ObjectKind::Tag) + one_of(resolved, ObjectKind::Tag)
    &&& summary.external_bases == count_outside(entries) + one_outside(resolved)
    &&& exists|depth: int|
        #![trigger deepest(depth, entries)]
        deepest(depth, entries) && summary.maximum_delta_depth == if depth < depth_of(entry) {
            depth_of(entry)
        } else {
            depth
        }
    &&& exists|ratio: int|
        #![trigger widest(ratio, entries)]
        widest(ratio, entries) && summary.maximum_delta_expansion_ratio == if ratio < ratio_of(
            entry,
        ) {
            ratio_of(entry)
        } else {
            ratio
        }
}

/// Resolving one open entry adds to the count of its kind and of outside bases.
proof fn lemma_kind_update(
    entries: Seq<ParsedEntry>,
    at: int,
    entry: ParsedEntry,
    kind: ObjectKind,
)
    requires
        0 <= at < entries.len(),
        entries[at].resolved is None,
    ensures
        count_kind(entries.update(at, entry), kind) == count_kind(entries, kind) + one_of(
            entry.resolved,
            kind,
        ),
        count_outside(entries.update(at, entry)) == count_outside(entries) + one_outside(
            entry.resolved,
        ),
    decreases entries.len(),
{
    let after = entries.update(at, entry);
    if at == entries.len() - 1 {
        assert(after.drop_last() =~= entries.drop_last());
    } else {
        assert(after.drop_last() =~= entries.drop_last().update(at, entry));
        lemma_kind_update(entries.drop_last(), at, entry, kind);
    }
}

/// An entry that rests on no base moves only the count of its kind ahead.
proof fn lemma_kinds_direct(
    before: PushValidationSummary,
    summary: PushValidationSummary,
    entries: Seq<ParsedEntry>,
    entry: ParsedEntry,
)
    requires
        kinds_counted(before, entries),
        entry.resolved matches Some(resolved) ==> entry.dependency is Direct && resolved.depth == 0
            && !resolved.external,
        summary.commits == before.commits + one_of(entry.resolved, ObjectKind::Commit),
        summary.trees == before.trees + one_of(entry.resolved, ObjectKind::Tree),
        summary.blobs == before.blobs + one_of(entry.resolved, ObjectKind::Blob),
        summary.tags == before.tags + one_of(entry.resolved, ObjectKind::Tag),
        summary.external_bases == before.external_bases,
        summary.maximum_delta_depth == before.maximum_delta_depth,
        summary.maximum_delta_expansion_ratio == before.maximum_delta_expansion_ratio,
    ensures
        kinds_ahead(summary, entries, entry),
{
    assert(deepest(before.maximum_delta_depth as int, entries));
    assert(widest(before.maximum_delta_expansion_ratio as int, entries));
}

/// Counts that run one entry ahead are right once the entry is appended.
proof fn lemma_kinds_push(
    summary: PushValidationSummary,
    entries: Seq<ParsedEntry>,
    entry: ParsedEntry,
)
    requires
        kinds_ahead(summary, entries, entry),
    ensures
        kinds_counted(summary, entries.push(entry)),
{
    let after = entries.push(entry);
    let last = entries.len() as int;
    assert(after.drop_last() =~= entries);
    let depth = choose|depth: int|
        #![trigger deepest(depth, entries)]
        deepest(depth, entries) && summary.maximum_delta_depth == if depth < depth_of(entry) {
            depth_of(entry)
        } else {
            depth
        };
    let ratio = choose|ratio: int|
        #![trigger widest(ratio, entries)]
        widest(ratio, entries) && summary.maximum_delta_expansion_ratio == if ratio < ratio_of(
            entry,
        ) {
            ratio_of(entry)
        } else {
            ratio
        };
    assert(after[last] == entry);
    assert forall|i: int| 0 <= i < after.len() implies depth_of(#[trigger] after[i])
        <= summary.maximum_delta_depth && ratio_of(after[i])
        <= summary.maximum_delta_expansion_ratio by {
        if i < last {
            assert(after[i] == entries[i]);
        }
    }
    if depth >= depth_of(entry) && depth != 0 {
        let i = choose|i: int| 0 <= i < entries.len() && depth_of(#[trigger] entries[i]) == depth;
        assert(depth_of(after[i]) == depth);
    }
    if ratio >= ratio_of(entry) && ratio != 0 {
        let i = choose|i: int| 0 <= i < entries.len() && ratio_of(#[trigger] entries[i]) == ratio;
        assert(ratio_of(after[i]) == ratio);
    }
}

/// Counts that run one resolution ahead are right once an open entry takes it.
proof fn lemma_kinds_update(
    summary: PushValidationSummary,
    entries: Seq<ParsedEntry>,
    at: int,
    entry: ParsedEntry,
)
    requires
        0 <= at < entries.len(),
        entries[at].resolved is None,
        kinds_ahead(summary, entries, entry),
    ensures
        kinds_counted(summary, entries.update(at, entry)),
{
    let after = entries.update(at, entry);
    lemma_kind_update(entries, at, entry, ObjectKind::Commit);
    lemma_kind_update(entries, at, entry, ObjectKind::Tree);
    lemma_kind_update(entries, at, entry, ObjectKind::Blob);
    lemma_kind_update(entries, at, entry, ObjectKind::Tag);
    let depth = choose|depth: int|
        #![trigger deepest(depth, entries)]
        deepest(depth, entries) && summary.maximum_delta_depth == if depth < depth_of(entry) {
            depth_of(entry)
        } else {
            depth
        };
    let ratio = choose|ratio: int|
        #![trigger widest(ratio, entries)]
        widest(ratio, entries) && summary.maximum_delta_expansion_ratio == if ratio < ratio_of(
            entry,
        ) {
            ratio_of(entry)
        } else {
            ratio
        };
    assert(after[at] == entry);
    assert forall|i: int| 0 <= i < after.len() implies depth_of(#[trigger] after[i])
        <= summary.maximum_delta_depth && ratio_of(after[i])
        <= summary.maximum_delta_expansion_ratio by {
        if i != at {
            assert(after[i] == entries[i]);
        }
    }
    if depth >= depth_of(entry) && depth != 0 {
        let i = choose|i: int| 0 <= i < entries.len() && depth_of(#[trigger] entries[i]) == depth;
        assert(after[i] == entries[i]);
        assert(depth_of(after[i]) == depth);
    }
    if ratio >= ratio_of(entry) && ratio != 0 {
        let i = choose|i: int| 0 <= i < entries.len() && ratio_of(#[trigger] entries[i]) == ratio;
        assert(after[i] == entries[i]);
        assert(ratio_of(after[i]) == ratio);
    }
}

/// Every resolved commit, tree and tag is kept once as the parser reads it.
pub open spec fn structure_kept<S: StructuralParser>(
    structural: Seq<PushStructuralObject>,
    entries: Seq<ParsedEntry>,
    payloads: Seq<Seq<u8>>,
    algo: HashAlgo,
) -> bool {
    &&& structural.len() == count_kind(entries, ObjectKind::Commit) + count_kind(
        entries,
        ObjectKind::Tree,
    ) + count_kind(entries, ObjectKind::Tag)
    &&& forall|i: int|
        0 <= i < entries.len() && (#[trigger] entries[i]).resolved is Some
            && entries[i].resolved->0.kind != ObjectKind::Blob ==> entry_kept::<S>(
            structural,
            entries[i].resolved->0,
            payloads[i],
            algo,
        )
}

/// Some object is kept for a resolution.
pub open spec fn entry_kept<S: StructuralParser>(
    structural: Seq<PushStructuralObject>,
    resolved: ResolvedEntry,
    payload: Seq<u8>,
    algo: HashAlgo,
) -> bool {
    exists|k: int|
        0 <= k < structural.len() && kept_for::<S>(
            #[trigger] structural[k],
            resolved.oid,
            resolved.kind,
            payload,
            algo,
        )
}

/// Resolved payloads and delta chains stay within the limits.
pub open spec fn entries_within(entries: Seq<ParsedEntry>, limits: ReceivePackLimits) -> bool {
    forall|i: int|
        0 <= i < entries.len() && (#[trigger] entries[i]).resolved is Some
            ==> entries[i].resolved->0.size <= limits.max_object_bytes
            && entries[i].resolved->0.depth <= limits.max_delta_depth
}

/// What is kept stays kept when an entry is appended.
proof fn lemma_kept_push<S: StructuralParser>(
    before: Seq<PushStructuralObject>,
    after: Seq<PushStructuralObject>,
    entries: Seq<ParsedEntry>,
    payloads: Seq<Seq<u8>>,
    entry: ParsedEntry,
    payload: Seq<u8>,
    algo: HashAlgo,
)
    requires
        payloads.len() == entries.len(),
        structure_kept::<S>(before, entries, payloads, algo),
        match entry.resolved {
            Some(resolved) => retained_for::<S>(
                before,
                after,
                resolved.oid,
                resolved.kind,
                payload,
                algo,
            ),
            None => after == before,
        },
    ensures
        structure_kept::<S>(after, entries.push(entry), payloads.push(payload), algo),
{
    let longer = entries.push(entry);
    assert(longer.drop_last() =~= entries);
    assert forall|i: int|
        0 <= i < longer.len() && (#[trigger] longer[i]).resolved is Some
            && longer[i].resolved->0.kind != ObjectKind::Blob implies entry_kept::<S>(
        after,
        longer[i].resolved->0,
        payloads.push(payload)[i],
        algo,
    ) by {
        if i < entries.len() {
            assert(longer[i] == entries[i]);
            lemma_entry_kept::<S>(before, after, entries[i].resolved->0, payloads[i], algo);
        } else {
            assert(kept_for::<S>(
                after[before.len() as int],
                entry.resolved->0.oid,
                entry.resolved->0.kind,
                payload,
                algo,
            ));
        }
    }
}

/// What is kept stays kept when an open entry is resolved.
proof fn lemma_kept_update<S: StructuralParser>(
    before: Seq<PushStructuralObject>,
    after: Seq<PushStructuralObject>,
    entries: Seq<ParsedEntry>,
    payloads: Seq<Seq<u8>>,
    at: int,
    entry: ParsedEntry,
    payload: Seq<u8>,
    algo: HashAlgo,
)
    requires
        payloads.len() == entries.len(),
        0 <= at < entries.len(),
        entries[at].resolved is None,
        entry.resolved is Some,
        structure_kept::<S>(before, entries, payloads, algo),
        retained_for::<S>(
            before,
            after,
            entry.resolved->0.oid,
            entry.resolved->0.kind,
            payload,
            algo,
        ),
    ensures
        structure_kept::<S>(after, entries.update(at, entry), payloads.update(at, payload), algo),
{
    let changed = entries.update(at, entry);
    lemma_kind_update(entries, at, entry, ObjectKind::Commit);
    lemma_kind_update(entries, at, entry, ObjectKind::Tree);
    lemma_kind_update(entries, at, entry, ObjectKind::Tag);
    assert forall|i: int|
        0 <= i < changed.len() && (#[trigger] changed[i]).resolved is Some
            && changed[i].resolved->0.kind != ObjectKind::Blob implies entry_kept::<S>(
        after,
        changed[i].resolved->0,
        payloads.update(at, payload)[i],
        algo,
    ) by {
        if i != at {
            assert(changed[i] == entries[i]);
            lemma_entry_kept::<S>(before, after, entries[i].resolved->0, payloads[i], algo);
        } else {
            assert(kept_for::<S>(
                after[before.len() as int],
                entry.resolved->0.oid,
                entry.resolved->0.kind,
                payload,
                algo,
            ));
        }
    }
}

/// An object kept among some objects is kept among more.
proof fn lemma_entry_kept<S: StructuralParser>(
    before: Seq<PushStructuralObject>,
    after: Seq<PushStructuralObject>,
    resolved: ResolvedEntry,
    payload: Seq<u8>,
    algo: HashAlgo,
)
    requires
        entry_kept::<S>(before, resolved, payload, algo),
        after == before || after.len() == before.len() + 1 && after == before.push(
            after[before.len() as int],
        ),
    ensures
        entry_kept::<S>(after, resolved, payload, algo),
{
    let k = choose|k: int|
        0 <= k < before.len() && kept_for::<S>(
            #[trigger] before[k],
            resolved.oid,
            resolved.kind,
            payload,
            algo,
        );
    assert(after[k] == before[k]);
}

/// Some resolved entry has its base outside.
pub open spec fn some_external(entries: Seq<ParsedEntry>) -> bool {
    exists|i: int|
        0 <= i < entries.len() && (#[trigger] entries[i]).resolved is Some
            && entries[i].resolved->0.external
}

/// Only the resolution of entries differs.
pub open spec fn same_but_resolved(left: Seq<ParsedEntry>, right: Seq<ParsedEntry>) -> bool {
    &&& left.len() == right.len()
    &&& forall|i: int|
        0 <= i < left.len() ==> (#[trigger] left[i]) == (ParsedEntry {
            resolved: left[i].resolved,
            ..right[i]
        })
}

/// Counts by representation do not depend on resolutions.
proof fn lemma_counts_same(left: Seq<ParsedEntry>, right: Seq<ParsedEntry>)
    requires
        same_but_resolved(left, right),
    ensures
        count_direct(left) == count_direct(right),
        count_ofs(left) == count_ofs(right),
        sum_declared(left) == sum_declared(right),
    decreases left.len(),
{
    if left.len() > 0 {
        assert forall|i: int| 0 <= i < left.drop_last().len() implies (
        #[trigger] left.drop_last()[i]) == (ParsedEntry {
            resolved: left.drop_last()[i].resolved,
            ..right.drop_last()[i]
        }) by {
            assert(left[i] == (ParsedEntry { resolved: left[i].resolved, ..right[i] }));
        }
        lemma_counts_same(left.drop_last(), right.drop_last());
        let last = left.len() - 1;
        assert(left[last] == (ParsedEntry { resolved: left[last].resolved, ..right[last] }));
    }
}

/// With nothing left open every entry is resolved.
proof fn lemma_none_open(entries: Seq<ParsedEntry>)
    ensures
        count_open(entries) == 0 <==> forall|i: int|
            0 <= i < entries.len() ==> (#[trigger] entries[i]).resolved is Some,
    decreases entries.len(),
{
    if entries.len() > 0 {
        let shorter = entries.drop_last();
        lemma_none_open(shorter);
        if count_open(entries) == 0 {
            assert forall|i: int| 0 <= i < entries.len() implies (
            #[trigger] entries[i]).resolved is Some by {
                if i < shorter.len() {
                    assert(shorter[i].resolved is Some);
                }
            }
        } else if forall|i: int| 0 <= i < entries.len() ==> (#[trigger] entries[i]).resolved is Some {
            assert forall|i: int| 0 <= i < shorter.len() implies (
            #[trigger] shorter[i]).resolved is Some by {
                assert(entries[i].resolved is Some);
            }
            assert(entries[entries.len() - 1].resolved is Some);
        }
    }
}

/// Resolving one open entry leaves one fewer open.
proof fn lemma_open_update(entries: Seq<ParsedEntry>, at: int, entry: ParsedEntry)
    requires
        0 <= at < entries.len(),
        entries[at].resolved is None,
        entry.resolved is Some,
    ensures
        count_open(entries.update(at, entry)) + 1 == count_open(entries),
    decreases entries.len(),
{
    let after = entries.update(at, entry);
    if at == entries.len() - 1 {
        assert(after.drop_last() =~= entries.drop_last());
    } else {
        assert(after.drop_last() =~= entries.drop_last().update(at, entry));
        lemma_open_update(entries.drop_last(), at, entry);
    }
}

/// Everything known while entries are parsed and resolved.
struct PackIndexer {
    entries: Vec<ParsedEntry>,
    oids: OidMap,
    structural: Vec<PushStructuralObject>,
    structural_bytes: u64,
    summary: PushValidationSummary,
    cache: Vec<Option<Vec<u8>>>,
    cache_bytes: u64,
    used_external: bool,
    payloads: Ghost<Seq<Seq<u8>>>,
}

/// The map holds exactly the identities of resolved entries, each with its index.
spec fn oids_cover(entries: Seq<ParsedEntry>, oids: Map<ObjectId, u64>) -> bool {
    &&& forall|i: int|
        0 <= i < entries.len() && (#[trigger] entries[i]).resolved is Some
            ==> oids.dom().contains(entries[i].resolved->0.oid)
            && oids[entries[i].resolved->0.oid] == i
    &&& forall|key: ObjectId| #[trigger]
        oids.dom().contains(key) ==> oids[key] < entries.len() && entries[oids[key] as int].resolved is Some
            && entries[oids[key] as int].resolved->0.oid == key
}

/// Cached payloads are those of their entries, every resolved delta has one, and only deltas are
/// open.
spec fn cache_good(
    entries: Seq<ParsedEntry>,
    cache: Seq<Option<Vec<u8>>>,
    payloads: Seq<Seq<u8>>,
) -> bool {
    &&& cache.len() == entries.len()
    &&& forall|i: int|
        0 <= i < cache.len() && (#[trigger] cache[i]) is Some ==> cache[i]->0@ == payloads[i]
    &&& forall|i: int|
        0 <= i < entries.len() && !((#[trigger] entries[i]).dependency is Direct)
            && entries[i].resolved is Some ==> cache[i] is Some
    &&& forall|i: int|
        0 <= i < entries.len() && (#[trigger] entries[i]).dependency is Direct
            ==> entries[i].resolved is Some
    &&& forall|i: int|
        0 <= i < entries.len() && (#[trigger] entries[i]).resolved is None ==> cache[i] is None
}

/// The provider answered that it has none of these bases.
spec fn known_missing<B: AuthorizedPushBaseProvider>(
    tenant: Seq<char>,
    repository: Seq<char>,
    missing: Map<ObjectId, u64>,
) -> bool {
    forall|oid: ObjectId| #[trigger]
        missing.dom().contains(oid) ==> B::gives(tenant, repository, oid, Ok(None))
}

/// An open entry waits: its base is not resolved yet, or is neither among the resolved entries nor
/// given by the provider.
pub open spec fn waits<B: AuthorizedPushBaseProvider>(
    tenant: Seq<char>,
    repository: Seq<char>,
    entries: Seq<ParsedEntry>,
    i: int,
) -> bool {
    match entries[i].dependency {
        EntryDependency::Direct(_) => false,
        EntryDependency::Ofs { base_index, .. } => entries[base_index as int].resolved is None,
        EntryDependency::Ref { base_oid } => {
            &&& B::gives(tenant, repository, base_oid, Ok(None))
            &&& forall|j: int|
                0 <= j < entries.len() && (#[trigger] entries[j]).resolved is Some
                    ==> entries[j].resolved->0.oid != base_oid
        },
    }
}

impl PackIndexer {
    spec fn good(self, pack: Seq<u8>, algo: HashAlgo, body_end: int) -> bool {
        let entries = self.entries@;
        &&& entries.len() <= u32::MAX
        &&& self.payloads@.len() == entries.len()
        &&& tiled(pack, algo, body_end, entries)
        &&& all_justified(pack, algo, entries, self.payloads@)
        &&& oids_cover(entries, self.oids@)
        &&& cache_good(entries, self.cache@, self.payloads@)
        &&& self.cache_bytes == cached_sum(self.cache@)
        &&& self.used_external == some_external(entries)
        &&& self.summary.direct_objects == count_direct(entries)
        &&& self.summary.ofs_deltas == count_ofs(entries)
        &&& self.summary.direct_objects + self.summary.ofs_deltas + self.summary.ref_deltas
            == entries.len()
        &&& self.summary.inflated_bytes == sum_declared(entries)
        &&& kinds_counted(self.summary, entries)
    }

    spec fn kept<S: StructuralParser>(self, algo: HashAlgo, limits: ReceivePackLimits) -> bool {
        &&& structure_kept::<S>(self.structural@, self.entries@, self.payloads@, algo)
        &&& self.structural_bytes == sum_structural(self.entries@)
        &&& entries_within(self.entries@, limits)
    }

    fn new() -> (indexer: Self)
        ensures
            indexer.entries@.len() == 0,
            indexer.structural@.len() == 0,
            indexer.structural_bytes == 0,
            indexer.summary == empty_summary(),
            forall|pack: Seq<u8>, algo: HashAlgo, body_end: int|
                #[trigger] indexer.good(pack, algo, body_end),
    {
        let indexer = PackIndexer {
            entries: Vec::new(),
            oids: OidMap::new(),
            structural: Vec::new(),
            structural_bytes: 0,
            summary: PushValidationSummary::default(),
            cache: Vec::new(),
            cache_bytes: 0,
            used_external: false,
            payloads: Ghost(Seq::empty()),
        };
        indexer
    }

    /// Find the entry that starts at `offset`.
    fn entry_at(
        &self,
        offset: u64,
        Ghost(pack): Ghost<Seq<u8>>,
        Ghost(algo): Ghost<HashAlgo>,
        Ghost(body_end): Ghost<int>,
    ) -> (found: Option<usize>)
        requires
            self.good(pack, algo, body_end),
        ensures
            match found {
                Some(i) => i < self.entries@.len() && self.entries@[i as int].entry_offset
                    == offset,
                None => forall|i: int|
                    0 <= i < self.entries@.len() ==> (#[trigger] self.entries@[i]).entry_offset
                        != offset,
            },
    {
        let mut low: usize = 0;
        let mut high: usize = self.entries.len();
        while low < high
            invariant
                self.good(pack, algo, body_end),
                low <= high <= self.entries@.len(),
                forall|i: int|
                    0 <= i < low ==> (#[trigger] self.entries@[i]).entry_offset < offset,
                forall|i: int|
                    high <= i < self.entries@.len() ==> (#[trigger] self.entries@[i]).entry_offset
                        > offset,
            decreases high - low,
        {
            let middle: usize = low + (high - low) / 2;
            let candidate: u64 = self.entries[middle].entry_offset;
            if candidate == offset {
                return Some(middle);
            }
            proof {
                assert forall|i: int, j: int|
                    0 <= i < j < self.entries@.len() implies (#[trigger] self.entries@[i]).entry_offset
                    < (#[trigger] self.entries@[j]).entry_offset by {
                    lemma_offsets_increase(pack, algo, body_end, self.entries@, i, j);
                }
            }
            if candidate < offset {
                low = middle + 1;
            } else {
                high = middle;
            }
        }
        None
    }

    /// Take in one parsed entry that starts where the previous one ended.
    fn push_entry(
        &mut self,
        entry: ParsedEntry,
        Ghost(payload): Ghost<Seq<u8>>,
        Ghost(pack): Ghost<Seq<u8>>,
        Ghost(algo): Ghost<HashAlgo>,
        Ghost(body_end): Ghost<int>,
    )
        requires
            old(self).good_parts(pack, algo, body_end),
            old(self).entries@.len() < u32::MAX,
            entry.ordinal == old(self).entries@.len(),
            entry.entry_offset == next_offset(old(self).entries@, old(self).entries@.len() as int),
            entry.shaped(pack, algo, body_end),
            entry.dependency matches EntryDependency::Ofs { base_index, base_offset } ==> base_index
                < old(self).entries@.len() && old(self).entries@[base_index as int].entry_offset
                == base_offset,
            entry.resolved is None <==> !(entry.dependency is Direct),
            entry.resolved matches Some(resolved) ==> {
                &&& resolved.oid == canonical_id(algo, resolved.kind, payload)
                &&& resolved.oid.spec_algo() == algo
                &&& resolved.size == payload.len()
                &&& entry.dependency == EntryDependency::Direct(resolved.kind)
                &&& payload == entry.inflated(pack)
                &&& resolved.depth == 0
                &&& !resolved.external
            },
            entry.resolved is Some ==> ({
                let oid = entry.resolved->0.oid;
                let before = old(self).oids@.remove(oid);
                &&& old(self).oids@.dom().contains(oid)
                &&& old(self).oids@[oid] == old(self).entries@.len()
                &&& oids_cover(old(self).entries@, before)
            }),
            entry.resolved is None ==> oids_cover(old(self).entries@, old(self).oids@),
            old(self).summary.direct_objects == count_direct(old(self).entries@) + if entry.dependency is Direct {
                1int
            } else {
                0int
            },
            old(self).summary.ofs_deltas == count_ofs(old(self).entries@) + if entry.dependency is Ofs {
                1int
            } else {
                0int
            },
            old(self).summary.direct_objects + old(self).summary.ofs_deltas + old(self).summary.ref_deltas == old(self).entries@.len() + 1,
            old(self).summary.inflated_bytes == sum_declared(old(self).entries@)
                + entry.declared_size,
            kinds_ahead(old(self).summary, old(self).entries@, entry),
            old(self).cache_bytes == cached_sum(old(self).cache@),
        ensures
            final(self).good(pack, algo, body_end),
            final(self).entries@ == old(self).entries@.push(entry),
            final(self).payloads@ == old(self).payloads@.push(payload),
            final(self).structural@ == old(self).structural@,
            final(self).structural_bytes == old(self).structural_bytes,
            final(self).summary == old(self).summary,
    {
        let ghost before = self.entries@;
        let ghost old_payloads = self.payloads@;
        let ghost old_cache = self.cache@;
        self.entries.push(entry);
        self.cache.push(None);
        proof {
            assert(self.cache@.drop_last() =~= old_cache);
            self.payloads@ = self.payloads@.push(payload);
            let after = self.entries@;
            let payloads = self.payloads@;
            assert(after.drop_last() =~= before);
            lemma_kinds_push(self.summary, before, entry);
            assert forall|i: int| 0 <= i < after.len() implies #[trigger] entry_placed(
                pack,
                algo,
                body_end,
                after,
                i,
            ) by {
                if i < before.len() {
                    assert(entry_placed(pack, algo, body_end, before, i));
                    assert(after[i] == before[i]);
                    if i > 0 {
                        assert(after[i - 1] == before[i - 1]);
                    }
                }
            }
            assert forall|i: int| 0 <= i < after.len() implies #[trigger] entry_resolved(
                pack,
                algo,
                after,
                payloads,
                i,
            ) by {
                if i < before.len() {
                    assert(entry_placed(pack, algo, body_end, before, i));
                    assert(entry_resolved(pack, algo, before, old_payloads, i));
                    lemma_resolution_kept(pack, algo, before, old_payloads, after, payloads, i);
                }
            }
            assert forall|i: int| 0 <= i < after.len() && (#[trigger] after[i]).resolved is Some
                implies self.oids@.dom().contains(after[i].resolved->0.oid)
                && self.oids@[after[i].resolved->0.oid] == i by {
                if i < before.len() {
                    assert(before[i].resolved is Some);
                }
            }
            assert forall|key: ObjectId| #[trigger] self.oids@.dom().contains(key) implies self.oids@[key]
                < after.len() && after[self.oids@[key] as int].resolved is Some
                && after[self.oids@[key] as int].resolved->0.oid == key by {
                if entry.resolved is Some && key == entry.resolved->0.oid {
                } else if entry.resolved is Some {
                    assert(self.oids@.remove(entry.resolved->0.oid).dom().contains(key));
                }
            }
            if some_external(before) {
                let i = choose|i: int|
                    0 <= i < before.len() && (#[trigger] before[i]).resolved is Some
                        && before[i].resolved->0.external;
                assert(after[i].resolved is Some && after[i].resolved->0.external);
            }
            if some_external(after) {
                let i = choose|i: int|
                    0 <= i < after.len() && (#[trigger] after[i]).resolved is Some
                        && after[i].resolved->0.external;
                assert(before[i].resolved is Some && before[i].resolved->0.external);
            }
        }
    }

    spec fn good_parts(self, pack: Seq<u8>, algo: HashAlgo, body_end: int) -> bool {
        let entries = self.entries@;
        &&& self.payloads@.len() == entries.len()
        &&& tiled(pack, algo, body_end, entries)
        &&& all_justified(pack, algo, entries, self.payloads@)
        &&& cache_good(entries, self.cache@, self.payloads@)
        &&& self.used_external == some_external(entries)
    }

    /// Record the resolution of one open delta entry.
    fn resolve(
        &mut self,
        at: usize,
        resolved: ResolvedEntry,
        payload: Vec<u8>,
        Ghost(base_index): Ghost<Option<int>>,
        Ghost(base): Ghost<Seq<u8>>,
        Ghost(pack): Ghost<Seq<u8>>,
        Ghost(algo): Ghost<HashAlgo>,
        Ghost(body_end): Ghost<int>,
    )
        requires
            at < old(self).entries@.len(),
            old(self).entries@.len() <= u32::MAX,
            old(self).good_parts(pack, algo, body_end),
            old(self).entries@[at as int].resolved is None,
            resolved.oid == canonical_id(algo, resolved.kind, payload@),
            resolved.oid.spec_algo() == algo,
            resolved.size == payload@.len(),
            delta_makes(old(self).entries@[at as int].inflated(pack), base, payload@),
            resolved.external == (base_index is None),
            match old(self).entries@[at as int].dependency {
                EntryDependency::Direct(_) => false,
                EntryDependency::Ofs { base_index: index, .. } => base_index == Some(index as int),
                EntryDependency::Ref { base_oid } => match base_index {
                    Some(j) => 0 <= j < old(self).entries@.len() && old(self).entries@[j].resolved is Some && old(self).entries@[j].resolved->0.oid
                        == base_oid,
                    None => canonical_id(algo, resolved.kind, base) == base_oid,
                },
            },
            match base_index {
                Some(j) => {
                    &&& old(self).entries@[j].resolved is Some
                    &&& old(self).entries@[j].resolved->0.kind == resolved.kind
                    &&& resolved.depth == old(self).entries@[j].resolved->0.depth + 1
                    &&& base == old(self).payloads@[j]
                },
                None => resolved.depth == 1,
            },
            ({
                let before = old(self).oids@.remove(resolved.oid);
                &&& old(self).oids@.dom().contains(resolved.oid)
                &&& old(self).oids@[resolved.oid] == at
                &&& oids_cover(old(self).entries@, before)
            }),
            old(self).summary.direct_objects == count_direct(old(self).entries@),
            old(self).summary.ofs_deltas == count_ofs(old(self).entries@),
            old(self).summary.direct_objects + old(self).summary.ofs_deltas + old(self).summary.ref_deltas == old(self).entries@.len(),
            old(self).summary.inflated_bytes == sum_declared(old(self).entries@),
            kinds_ahead(
                old(self).summary,
                old(self).entries@,
                (ParsedEntry { resolved: Some(resolved), ..old(self).entries@[at as int] }),
            ),
            old(self).cache_bytes == cached_sum(old(self).cache@) + payload@.len(),
        ensures
            final(self).good(pack, algo, body_end),
            final(self).entries@ == old(self).entries@.update(
                at as int,
                ParsedEntry { resolved: Some(resolved), ..old(self).entries@[at as int] },
            ),
            count_open(final(self).entries@) + 1 == count_open(old(self).entries@),
            final(self).payloads@ == old(self).payloads@.update(at as int, payload@),
            final(self).structural@ == old(self).structural@,
            final(self).structural_bytes == old(self).structural_bytes,
            final(self).summary == old(self).summary,
            final(self).cache_bytes == old(self).cache_bytes,
    {
        let ghost before = self.entries@;
        let ghost old_payloads = self.payloads@;
        let mut entry: ParsedEntry = self.entries[at];
        entry.resolved = Some(resolved);
        self.entries.set(at, entry);
        self.used_external = self.used_external || resolved.external;
        let ghost bytes = payload@;
        proof {
            lemma_cached_update(self.cache@, at as int, Some(payload));
        }
        self.cache.set(at, Some(payload));
        proof {
            self.payloads@ = old_payloads.update(at as int, bytes);
            let after = self.entries@;
            let payloads = self.payloads@;
            lemma_open_update(before, at as int, entry);
            lemma_kinds_update(self.summary, before, at as int, entry);
            assert(same_but_resolved(after, before));
            lemma_counts_same(after, before);
            assert forall|i: int| 0 <= i < after.len() implies #[trigger] entry_placed(
                pack,
                algo,
                body_end,
                after,
                i,
            ) by {
                assert(entry_placed(pack, algo, body_end, before, i));
            }
            assert forall|i: int| 0 <= i < after.len() implies #[trigger] entry_resolved(
                pack,
                algo,
                after,
                payloads,
                i,
            ) by {
                assert(entry_placed(pack, algo, body_end, before, i));
                if i != at {
                    assert(entry_resolved(pack, algo, before, old_payloads, i));
                    lemma_resolution_kept(pack, algo, before, old_payloads, after, payloads, i);
                } else {
                    match base_index {
                        Some(j) => {
                            assert(j != at);
                            assert(resolved_against(pack, after, payloads, i, j));
                        },
                        None => {
                            assert(canonical_id(algo, resolved.kind, base)
                                == entry.dependency->base_oid);
                        },
                    }
                }
            }
            assert forall|i: int| 0 <= i < after.len() && (#[trigger] after[i]).resolved is Some
                implies self.oids@.dom().contains(after[i].resolved->0.oid)
                && self.oids@[after[i].resolved->0.oid] == i by {
                if i != at {
                    assert(before[i].resolved is Some);
                }
            }
            assert forall|key: ObjectId| #[trigger] self.oids@.dom().contains(key) implies self.oids@[key]
                < after.len() && after[self.oids@[key] as int].resolved is Some
                && after[self.oids@[key] as int].resolved->0.oid == key by {
                if key != resolved.oid {
                    assert(self.oids@.remove(resolved.oid).dom().contains(key));
                }
            }
            if some_external(before) {
                let i = choose|i: int|
                    0 <= i < before.len() && (#[trigger] before[i]).resolved is Some
                        && before[i].resolved->0.external;
                assert(after[i].resolved is Some && after[i].resolved->0.external);
            }
            if resolved.external {
                assert(after[at as int].resolved is Some && after[at as int].resolved->0.external);
            }
            if some_external(after) {
                let i = choose|i: int|
                    0 <= i < after.len() && (#[trigger] after[i]).resolved is Some
                        && after[i].resolved->0.external;
                if i != at {
                    assert(before[i].resolved is Some && before[i].resolved->0.external);
                }
            }
        }
    }
}

/// Offsets strictly increase.
proof fn lemma_offsets_increase(
    pack: Seq<u8>,
    algo: HashAlgo,
    body_end: int,
    entries: Seq<ParsedEntry>,
    i: int,
    j: int,
)
    requires
        tiled(pack, algo, body_end, entries),
        0 <= i < j < entries.len(),
    ensures
        entries[i].entry_offset < entries[j].entry_offset,
    decreases j - i,
{
    assert(entry_placed(pack, algo, body_end, entries, j));
    assert(entry_placed(pack, algo, body_end, entries, j - 1));
    let previous = entries[j - 1];
    crate::varint::lemma_entry_header_len(previous.code(), previous.declared_size as nat);
    if i < j - 1 {
        lemma_offsets_increase(pack, algo, body_end, entries, i, j - 1);
    }
}

/// A justified resolution stays justified when entries and payloads it does not rest on change.
proof fn lemma_resolution_kept(
    pack: Seq<u8>,
    algo: HashAlgo,
    before: Seq<ParsedEntry>,
    old_payloads: Seq<Seq<u8>>,
    after: Seq<ParsedEntry>,
    payloads: Seq<Seq<u8>>,
    i: int,
)
    requires
        0 <= i < before.len() <= after.len(),
        old_payloads.len() == before.len(),
        payloads.len() == after.len(),
        after[i] == before[i],
        before[i].dependency matches EntryDependency::Ofs { base_index, .. } ==> base_index < i,
        forall|j: int|
            0 <= j < before.len() && (#[trigger] before[j]).resolved is Some ==> after[j]
                == before[j] && payloads[j] == old_payloads[j],
        entry_resolved(pack, algo, before, old_payloads, i),
    ensures
        entry_resolved(pack, algo, after, payloads, i),
{
    if before[i].resolved is Some {
        let resolved = before[i].resolved->0;
        match before[i].dependency {
            EntryDependency::Direct(_) => {},
            EntryDependency::Ofs { base_index, .. } => {
                assert(before[base_index as int].resolved is Some);
            },
            EntryDependency::Ref { base_oid } => {
                if !resolved.external {
                    let j = choose|j: int|
                        0 <= j < before.len() && #[trigger] resolved_against(
                            pack,
                            before,
                            old_payloads,
                            i,
                            j,
                        ) && before[j].resolved->0.oid == base_oid;
                    assert(before[j].resolved is Some);
                    assert(resolved_against(pack, after, payloads, i, j));
                }
            },
        }
    }
}

/// An unreadable header refuses the entry.
proof fn lemma_unreadable<S: StructuralParser>(
    pack: Seq<u8>,
    algo: HashAlgo,
    end: int,
    limits: ReceivePackLimits,
    entries: Seq<ParsedEntry>,
)
    requires
        header_unreadable(pack, next_offset(entries, entries.len() as int), end),
    ensures
        entry_refused::<S>(
            pack,
            algo,
            end,
            limits,
            entries,
            PushPackValidationError::InvalidHeader,
        ),
{
    reveal(entry_refused);
    reveal(header_refused);
}

/// An unreadable base, or an unknown type, refuses the entry.
proof fn lemma_base_unreadable<S: StructuralParser>(
    pack: Seq<u8>,
    algo: HashAlgo,
    end: int,
    limits: ReceivePackLimits,
    entries: Seq<ParsedEntry>,
    code: u8,
    size: u64,
)
    requires
        header_at(pack, next_offset(entries, entries.len() as int), code, size),
        base_unreadable(
            pack,
            algo,
            end,
            next_offset(entries, entries.len() as int),
            code,
            next_offset(entries, entries.len() as int) + entry_header(code, size as nat).len(),
        ),
    ensures
        entry_refused::<S>(
            pack,
            algo,
            end,
            limits,
            entries,
            PushPackValidationError::InvalidHeader,
        ),
{
    reveal(entry_refused);
    reveal(header_refused);
}

/// A base where no entry starts refuses the entry.
proof fn lemma_misplaced<S: StructuralParser>(
    pack: Seq<u8>,
    algo: HashAlgo,
    end: int,
    limits: ReceivePackLimits,
    entries: Seq<ParsedEntry>,
    size: u64,
    length: int,
    distance: int,
)
    requires
        base_misplaced(
            pack,
            next_offset(entries, entries.len() as int),
            entries,
            size,
            length,
            distance,
        ),
    ensures
        entry_refused::<S>(
            pack,
            algo,
            end,
            limits,
            entries,
            PushPackValidationError::UnresolvedDependency,
        ),
{
    reveal(entry_refused);
}

/// A declared size over a limit refuses the entry.
proof fn lemma_oversized<S: StructuralParser>(
    pack: Seq<u8>,
    algo: HashAlgo,
    end: int,
    limits: ReceivePackLimits,
    entries: Seq<ParsedEntry>,
    code: u8,
    size: u64,
)
    requires
        header_at(pack, next_offset(entries, entries.len() as int), code, size),
        size > stream_limit(limits, code) || sum_declared(entries) + size
            > limits.max_inflated_bytes,
    ensures
        entry_refused::<S>(
            pack,
            algo,
            end,
            limits,
            entries,
            PushPackValidationError::ObjectSize,
        ),
{
    reveal(entry_refused);
    reveal(content_refused);
}

/// A refused stream refuses the entry.
proof fn lemma_stream_refused<S: StructuralParser>(
    pack: Seq<u8>,
    algo: HashAlgo,
    end: int,
    limits: ReceivePackLimits,
    entries: Seq<ParsedEntry>,
    code: u8,
    size: u64,
    offset: int,
    error: PushPackValidationError,
)
    requires
        header_at(pack, next_offset(entries, entries.len() as int), code, size),
        next_offset(entries, entries.len() as int) < offset,
        stream_refused(pack, algo, offset, end, size, kind_of_code(code), error),
    ensures
        entry_refused::<S>(pack, algo, end, limits, entries, error),
{
    reveal(entry_refused);
    reveal(content_refused);
    assert(error != PushPackValidationError::InvalidHeader && error
        != PushPackValidationError::UnresolvedDependency) by {
        reveal(stream_refused);
    }
}

/// A refused object refuses the direct entry.
proof fn lemma_direct_refused<S: StructuralParser>(
    pack: Seq<u8>,
    algo: HashAlgo,
    end: int,
    limits: ReceivePackLimits,
    entries: Seq<ParsedEntry>,
    code: u8,
    size: u64,
    offset: int,
    stop: int,
    error: PushPackValidationError,
)
    requires
        header_at(pack, next_offset(entries, entries.len() as int), code, size),
        next_offset(entries, entries.len() as int) < offset,
        kind_of_code(code) is Some,
        zlib_decoded(pack.subrange(offset, stop)) is Some,
        object_refused::<S>(
            kind_of_code(code)->0,
            zlib_decoded(pack.subrange(offset, stop))->0,
            algo,
            limits,
            entries,
            error,
        ),
    ensures
        entry_refused::<S>(pack, algo, end, limits, entries, error),
{
    reveal(entry_refused);
    reveal(content_refused);
    assert(direct_refused::<S>(pack, algo, limits, entries, code, offset, stop, error));
    assert(error != PushPackValidationError::InvalidHeader && error
        != PushPackValidationError::UnresolvedDependency) by {
        reveal(object_refused);
    }
}

/// An object with the identity of a resolved entry is refused.
proof fn lemma_duplicate<S: StructuralParser>(
    kind: ObjectKind,
    payload: Seq<u8>,
    algo: HashAlgo,
    limits: ReceivePackLimits,
    entries: Seq<ParsedEntry>,
    oids: Map<ObjectId, u64>,
)
    requires
        oids_cover(entries, oids),
        oids.dom().contains(canonical_id(algo, kind, payload)),
    ensures
        object_refused::<S>(
            kind,
            payload,
            algo,
            limits,
            entries,
            PushPackValidationError::DuplicateObject,
        ),
{
    reveal(object_refused);
    let j = oids[canonical_id(algo, kind, payload)] as int;
    assert(entries[j].resolved is Some);
}

/// An object with a refused structure is refused.
proof fn lemma_structure_refused<S: StructuralParser>(
    kind: ObjectKind,
    payload: Seq<u8>,
    algo: HashAlgo,
    limits: ReceivePackLimits,
    entries: Seq<ParsedEntry>,
    error: PushPackValidationError,
)
    requires
        structure_refused::<S>(kind, payload, algo, limits, sum_structural(entries), error),
    ensures
        object_refused::<S>(kind, payload, algo, limits, entries, error),
{
    reveal(object_refused);
}

/// The headers of one entry.
struct EntryHead {
    code: u8,
    declared_size: u64,
    header_bytes: u64,
    base_length: u64,
    dependency: EntryDependency,
}

/// The headers say what stands at `start`, and name a base that can be known.
spec fn head_good(
    head: EntryHead,
    pack: Seq<u8>,
    algo: HashAlgo,
    start: int,
    entries: Seq<ParsedEntry>,
) -> bool {
    let at = start + head.header_bytes;
    &&& header_at(pack, start, head.code, head.declared_size)
    &&& head.header_bytes == entry_header(head.code, head.declared_size as nat).len()
    &&& at + head.base_length <= u64::MAX
    &&& match head.dependency {
        EntryDependency::Direct(kind) => {
            &&& head.base_length == 0
            &&& kind.code() == head.code
            &&& kind_of_code(head.code) == Some(kind)
        },
        EntryDependency::Ofs { base_index, base_offset } => {
            &&& head.code == 6
            &&& 0 < head.base_length <= MAX_ENTRY_HEADER_BYTES
            &&& at + head.base_length <= pack.len()
            &&& ofs_fold(pack.subrange(at, at + head.base_length)) == start - base_offset
            &&& base_index < entries.len()
            &&& entries[base_index as int].entry_offset == base_offset
        },
        EntryDependency::Ref { base_oid } => {
            &&& head.code == 7
            &&& head.base_length == algo.spec_len()
            &&& at + head.base_length <= pack.len()
            &&& pack.subrange(at, at + head.base_length) == base_oid@
            &&& base_oid.spec_algo() == algo
            &&& !base_oid.spec_is_zero()
        },
    }
}

/// Read the headers of the next entry and check its declared size.
#[verifier::rlimit(25)]
fn read_entry_head<
    Q: PackQuarantine,
    S: StructuralParser,
    C: PushPackValidationControl,
    W: PushPackValidationWork,
>(
    quarantine: &mut Q,
    fence: QuarantineFence,
    indexer: &PackIndexer,
    entry_offset: u64,
    body_end: u64,
    hash_algo: HashAlgo,
    checkpoint: &mut ValidationCheckpoint,
    control: &mut C,
    work: &mut W,
) -> (result: Result<EntryHead, PushPackValidationError>)
    requires
        indexer.good(old(quarantine).content(), hash_algo, body_end as int),
        entry_offset == next_offset(indexer.entries@, indexer.entries@.len() as int),
        old(checkpoint).timed::<C>(),
    ensures
        final(quarantine).content() == old(quarantine).content(),
        final(quarantine).steps() == old(quarantine).steps(),
        reads_under(fence, old(quarantine).ranges(), final(quarantine).ranges()),
        final(quarantine).writes() == old(quarantine).writes(),
        result is Ok ==> reads_counted(
            *old(checkpoint),
            *final(checkpoint),
            old(quarantine).ranges(),
            final(quarantine).ranges(),
        ),
        final(checkpoint).options == old(checkpoint).options,
        final(checkpoint).external_operations == old(checkpoint).external_operations,
        final(checkpoint).timed::<C>(),
        result matches Err(error) ==> reading_explained::<Q, C, W>(
            fence,
            *old(checkpoint),
            old(quarantine).ranges(),
            final(quarantine).ranges(),
            error,
        )
            || entry_refused::<S>(
            old(quarantine).content(),
            hash_algo,
            body_end as int,
            old(checkpoint).options.limits,
            indexer.entries@,
            error,
        ),
        result matches Ok(head) ==> head_good(
            head,
            old(quarantine).content(),
            hash_algo,
            entry_offset as int,
            indexer.entries@,
        ) && sum_declared(indexer.entries@) + head.declared_size
            <= old(checkpoint).options.limits.max_inflated_bytes && head.declared_size
            <= stream_limit(old(checkpoint).options.limits, head.code),
{
    let ghost pack = quarantine.content();
    let limits = checkpoint.options.limits;
    let (code, declared_size, header_bytes) = match read_entry_header(
        quarantine,
        fence,
        entry_offset,
        body_end,
        checkpoint,
        control,
        work,
    ) {
        Ok(header) => header,
        Err(error) => {
            proof {
                if header_unreadable(pack, entry_offset as int, body_end as int) {
                    lemma_unreadable::<S>(
                        pack,
                        hash_algo,
                        body_end as int,
                        limits,
                        indexer.entries@,
                    );
                }
            }
            return Err(error);
        },
    };
    proof {
        crate::varint::lemma_entry_header_len(code, declared_size as nat);
        assert(header_at(pack, entry_offset as int, code, declared_size));
    }
    let base_start: u64 = entry_offset + header_bytes;
    let mut base_length: u64 = 0;
    let dependency: EntryDependency;
    if code == 6 {
        let (distance, length) = match read_ofs_distance(
            quarantine,
            fence,
            base_start,
            body_end,
            checkpoint,
            control,
            work,
        ) {
            Ok(read) => read,
            Err(error) => {
                proof {
                    if distance_unreadable(pack, base_start as int, body_end as int) {
                        lemma_base_unreadable::<S>(
                            pack,
                            hash_algo,
                            body_end as int,
                            limits,
                            indexer.entries@,
                            code,
                            declared_size,
                        );
                    }
                }
                return Err(error);
            },
        };
        if distance > entry_offset {
            proof {
                lemma_base_unreadable::<S>(
                    pack,
                    hash_algo,
                    body_end as int,
                    limits,
                    indexer.entries@,
                    code,
                    declared_size,
                );
            }
            return Err(PushPackValidationError::InvalidHeader);
        }
        let base_offset: u64 = entry_offset - distance;
        let base_index: usize = match indexer.entry_at(
            base_offset,
            Ghost(pack),
            Ghost(hash_algo),
            Ghost(body_end as int),
        ) {
            Some(index) => index,
            None => {
                proof {
                    lemma_misplaced::<S>(
                        pack,
                        hash_algo,
                        body_end as int,
                        limits,
                        indexer.entries@,
                        declared_size,
                        length as int,
                        distance as int,
                    );
                }
                return Err(PushPackValidationError::UnresolvedDependency);
            },
        };
        base_length = length;
        dependency = EntryDependency::Ofs { base_index, base_offset };
    } else if code == 7 {
        let width: usize = hash_algo.len();
        let base_bytes: Vec<u8> = read_exact(
            quarantine,
            fence,
            base_start,
            width,
            checkpoint,
            control,
            work,
        )?;
        if base_start > u64::MAX - width as u64 {
            proof {
                lemma_base_unreadable::<S>(
                    pack,
                    hash_algo,
                    body_end as int,
                    limits,
                    indexer.entries@,
                    code,
                    declared_size,
                );
            }
            return Err(PushPackValidationError::InvalidHeader);
        }
        let base_oid: ObjectId = match ObjectId::from_bytes(base_bytes.as_slice()) {
            Some(oid) => oid,
            None => {
                return Err(PushPackValidationError::InvalidHeader);
            },
        };
        if base_oid.is_zero() {
            proof {
                lemma_base_unreadable::<S>(
                    pack,
                    hash_algo,
                    body_end as int,
                    limits,
                    indexer.entries@,
                    code,
                    declared_size,
                );
            }
            return Err(PushPackValidationError::InvalidHeader);
        }
        base_length = width as u64;
        dependency = EntryDependency::Ref { base_oid };
    } else {
        let kind: ObjectKind = match object_kind(code) {
            Ok(kind) => kind,
            Err(error) => {
                proof {
                    lemma_base_unreadable::<S>(
                        pack,
                        hash_algo,
                        body_end as int,
                        limits,
                        indexer.entries@,
                        code,
                        declared_size,
                    );
                }
                return Err(error);
            },
        };
        dependency = EntryDependency::Direct(kind);
    }
    let direct_kind: Option<ObjectKind> = match dependency {
        EntryDependency::Direct(kind) => Some(kind),
        _ => None,
    };
    let maximum: u64 = match direct_kind {
        Some(ObjectKind::Blob) => limits.max_object_bytes,
        Some(_) => {
            if limits.max_object_bytes < limits.max_metadata_memory_bytes {
                limits.max_object_bytes
            } else {
                limits.max_metadata_memory_bytes
            }
        },
        None => limits.max_delta_instruction_bytes,
    };
    proof {
        assert(direct_kind == kind_of_code(code));
        if declared_size > maximum || indexer.summary.inflated_bytes + declared_size
            > limits.max_inflated_bytes {
            lemma_oversized::<S>(
                pack,
                hash_algo,
                body_end as int,
                limits,
                indexer.entries@,
                code,
                declared_size,
            );
        }
    }
    if declared_size > maximum {
        return Err(PushPackValidationError::ObjectSize);
    }
    if declared_size as u128 + indexer.summary.inflated_bytes as u128
        > limits.max_inflated_bytes as u128 {
        return Err(PushPackValidationError::ObjectSize);
    }
    Ok(EntryHead { code, declared_size, header_bytes, base_length, dependency })
}

/// Read, check and inflate the next entry.
#[verifier::rlimit(30)]
fn parse_entry<
    Q: PackQuarantine,
    S: StructuralParser,
    C: PushPackValidationControl,
    W: PushPackValidationWork,
>(
    quarantine: &mut Q,
    fence: QuarantineFence,
    indexer: &mut PackIndexer,
    entry_offset: u64,
    body_end: u64,
    hash_algo: HashAlgo,
    parser: &mut S,
    checkpoint: &mut ValidationCheckpoint,
    control: &mut C,
    work: &mut W,
) -> (result: Result<u64, PushPackValidationError>)
    requires
        old(indexer).good(old(quarantine).content(), hash_algo, body_end as int),
        old(indexer).entries@.len() < u32::MAX,
        entry_offset == next_offset(
            old(indexer).entries@,
            old(indexer).entries@.len() as int,
        ),
        old(checkpoint).options.valid(),
        old(checkpoint).timed::<C>(),
        body_end <= old(quarantine).content().len(),
        old(indexer).kept::<S>(hash_algo, old(checkpoint).options.limits),
    ensures
        final(quarantine).content() == old(quarantine).content(),
        final(quarantine).steps() == old(quarantine).steps(),
        reads_under(fence, old(quarantine).ranges(), final(quarantine).ranges()),
        final(quarantine).writes() == old(quarantine).writes(),
        result is Ok ==> reads_counted(
            *old(checkpoint),
            *final(checkpoint),
            old(quarantine).ranges(),
            final(quarantine).ranges(),
        ),
        final(checkpoint).options == old(checkpoint).options,
        final(checkpoint).external_operations == old(checkpoint).external_operations,
        final(checkpoint).timed::<C>(),
        result matches Err(error) ==> reading_explained::<Q, C, W>(
            fence,
            *old(checkpoint),
            old(quarantine).ranges(),
            final(quarantine).ranges(),
            error,
        )
            || entry_refused::<S>(
            old(quarantine).content(),
            hash_algo,
            body_end as int,
            old(checkpoint).options.limits,
            old(indexer).entries@,
            error,
        ),
        result is Ok ==> {
            &&& final(indexer).good(old(quarantine).content(), hash_algo, body_end as int)
            &&& final(indexer).kept::<S>(hash_algo, old(checkpoint).options.limits)
            &&& final(indexer).entries@.len() == old(indexer).entries@.len() + 1
            &&& final(indexer).entries@.drop_last() == old(indexer).entries@
            &&& final(indexer).entries@.last().resolved matches Some(resolved)
                ==> !resolved.external
            &&& result->Ok_0 == next_offset(
                final(indexer).entries@,
                final(indexer).entries@.len() as int,
            )
            &&& final(indexer).summary.objects == old(indexer).summary.objects
        },
{
    let ghost pack = quarantine.content();
    let ghost before = *indexer;
    let limits = checkpoint.options.limits;
    checkpoint.charge(control, work, 1)?;
    let head = read_entry_head::<Q, S, C, W>(
        quarantine,
        fence,
        indexer,
        entry_offset,
        body_end,
        hash_algo,
        checkpoint,
        control,
        work,
    )?;
    let code: u8 = head.code;
    let declared_size: u64 = head.declared_size;
    let header_bytes: u64 = head.header_bytes;
    let base_length: u64 = head.base_length;
    let dependency = head.dependency;
    proof {
        crate::varint::lemma_entry_header_len(code, declared_size as nat);
        lemma_counts_bounded(before.entries@);
        assert(count_kind(before.entries@, ObjectKind::Blob) <= before.entries@.len());
    }
    let base_start: u64 = entry_offset + header_bytes;
    let mut summary = indexer.summary;
    match dependency {
        EntryDependency::Direct(_) => {},
        EntryDependency::Ofs { .. } => {
            summary.ofs_deltas = checked_add(summary.ofs_deltas, 1)?;
        },
        EntryDependency::Ref { .. } => {
            summary.ref_deltas = checked_add(summary.ref_deltas, 1)?;
        },
    }
    let compressed_offset: u64 = base_start + base_length;
    let direct_kind: Option<ObjectKind> = match dependency {
        EntryDependency::Direct(kind) => Some(kind),
        _ => None,
    };
    let is_blob: bool = direct_kind == Some(ObjectKind::Blob);
    assert(direct_kind == kind_of_code(code));
    let aggregate: u64 = summary.inflated_bytes + declared_size;
    let prefix_length: u64 = compressed_offset - entry_offset;
    let prefix: Vec<u8> = read_exact(
        quarantine,
        fence,
        entry_offset,
        prefix_length as usize,
        checkpoint,
        control,
        work,
    )?;
    let inflated = match inflate_one(
        quarantine,
        fence,
        compressed_offset,
        body_end,
        declared_size,
        !is_blob,
        direct_kind,
        prefix.as_slice(),
        hash_algo,
        checkpoint,
        control,
        work,
    ) {
        Ok(inflated) => inflated,
        Err(error) => {
            proof {
                if stream_refused(
                    pack,
                    hash_algo,
                    compressed_offset as int,
                    body_end as int,
                    declared_size,
                    direct_kind,
                    error,
                ) {
                    lemma_stream_refused::<S>(
                        pack,
                        hash_algo,
                        body_end as int,
                        limits,
                        before.entries@,
                        code,
                        declared_size,
                        compressed_offset as int,
                        error,
                    );
                }
            }
            return Err(error);
        },
    };
    summary.inflated_bytes = aggregate;
    let compressed = PushPackByteSpan { offset: compressed_offset, length: inflated.compressed_bytes };
    let ghost stream = pack.subrange(compressed_offset as int, compressed.end());
    let ghost payload = zlib_decoded(stream)->0;
    let mut resolved: Option<ResolvedEntry> = None;
    let position: usize = indexer.entries.len();
    if let Some(kind) = direct_kind {
        let oid: ObjectId = match inflated.oid {
            Some(oid) => oid,
            None => {
                return Err(PushPackValidationError::InvalidPack);
            },
        };
        if !indexer.oids.insert_new(oid, position as u64) {
            proof {
                lemma_duplicate::<S>(
                    kind,
                    payload,
                    hash_algo,
                    limits,
                    before.entries@,
                    before.oids@,
                );
                lemma_direct_refused::<S>(
                    pack,
                    hash_algo,
                    body_end as int,
                    limits,
                    before.entries@,
                    code,
                    declared_size,
                    compressed_offset as int,
                    compressed.end(),
                    PushPackValidationError::DuplicateObject,
                );
            }
            return Err(PushPackValidationError::DuplicateObject);
        }
        assert(indexer.oids@.remove(oid) =~= before.oids@);
        match &inflated.collected {
            Some(data) => {
                match retain_structural(
                    oid,
                    kind,
                    data.as_slice(),
                    hash_algo,
                    parser,
                    &mut indexer.structural,
                    &mut indexer.structural_bytes,
                    limits.max_structural_memory_bytes,
                    &mut summary,
                ) {
                    Ok(_) => {},
                    Err(error) => {
                        proof {
                            assert(count_kind(before.entries@, kind) <= before.entries@.len());
                            lemma_structure_refused::<S>(
                                kind,
                                payload,
                                hash_algo,
                                limits,
                                before.entries@,
                                error,
                            );
                            lemma_direct_refused::<S>(
                                pack,
                                hash_algo,
                                body_end as int,
                                limits,
                                before.entries@,
                                code,
                                declared_size,
                                compressed_offset as int,
                                compressed.end(),
                                error,
                            );
                        }
                        return Err(error);
                    },
                }
            },
            None => {
                summary.blobs = checked_add(summary.blobs, 1)?;
            },
        }
        summary.direct_objects = checked_add(summary.direct_objects, 1)?;
        resolved =
        Some(ResolvedEntry { oid, kind, size: declared_size, depth: 0, external: false });
    }
    indexer.summary = summary;
    let entry = ParsedEntry {
        ordinal: position as u32,
        entry_offset,
        header: PushPackByteSpan { offset: entry_offset, length: header_bytes },
        base_header: PushPackByteSpan { offset: base_start, length: base_length },
        compressed,
        declared_size,
        crc32: inflated.crc32,
        dependency,
        resolved,
    };
    proof {
        assert(prefix@ + stream =~= pack.subrange(entry_offset as int, compressed.end()));
        assert(entry.compressed.of(pack) == stream);
        assert(entry.inflated(pack) == payload);
        assert(entry.shaped(pack, hash_algo, body_end as int));
        lemma_kinds_direct(before.summary, summary, before.entries@, entry);
        lemma_kept_push::<S>(
            before.structural@,
            indexer.structural@,
            before.entries@,
            before.payloads@,
            entry,
            payload,
            hash_algo,
        );
    }
    indexer.push_entry(
        entry,
        Ghost(payload),
        Ghost(pack),
        Ghost(hash_algo),
        Ghost(body_end as int),
    );
    assert(indexer.entries@.drop_last() =~= before.entries@);
    Ok(compressed_offset + inflated.compressed_bytes)
}

/// Inflate the stream of a parsed entry again.
fn inflate_entry_data<
    Q: PackQuarantine,
    C: PushPackValidationControl,
    W: PushPackValidationWork,
>(
    quarantine: &mut Q,
    fence: QuarantineFence,
    entry: &ParsedEntry,
    body_end: u64,
    kind: Option<ObjectKind>,
    hash_algo: HashAlgo,
    checkpoint: &mut ValidationCheckpoint,
    control: &mut C,
    work: &mut W,
) -> (result: Result<(Vec<u8>, Option<ObjectId>), PushPackValidationError>)
    requires
        old(checkpoint).options.valid(),
        old(checkpoint).timed::<C>(),
        entry.shaped(old(quarantine).content(), hash_algo, body_end as int),
    ensures
        final(quarantine).content() == old(quarantine).content(),
        final(quarantine).steps() == old(quarantine).steps(),
        reads_under(fence, old(quarantine).ranges(), final(quarantine).ranges()),
        final(quarantine).writes() == old(quarantine).writes(),
        result is Ok ==> reads_counted(
            *old(checkpoint),
            *final(checkpoint),
            old(quarantine).ranges(),
            final(quarantine).ranges(),
        ),
        final(checkpoint).options == old(checkpoint).options,
        final(checkpoint).external_operations == old(checkpoint).external_operations,
        final(checkpoint).timed::<C>(),
        result matches Err(error) ==> reading_explained::<Q, C, W>(
            fence,
            *old(checkpoint),
            old(quarantine).ranges(),
            final(quarantine).ranges(),
            error,
        )
            || reread_refused(
            old(quarantine).content(),
            hash_algo,
            body_end as int,
            *entry,
            kind,
            error,
        ),
        result is Ok ==> {
            &&& result->Ok_0.0@ == entry.inflated(old(quarantine).content())
            &&& kind is Some ==> result->Ok_0.1 == Some(
                canonical_id(hash_algo, kind->0, result->Ok_0.0@),
            )
        },
{
    proof {
        crate::varint::lemma_entry_header_len(entry.code(), entry.declared_size as nat);
    }
    let prefix_length: u64 = entry.compressed.offset - entry.entry_offset;
    if prefix_length > usize::MAX as u64 {
        return Err(PushPackValidationError::InvalidHeader);
    }
    let prefix: Vec<u8> = read_exact(
        quarantine,
        fence,
        entry.entry_offset,
        prefix_length as usize,
        checkpoint,
        control,
        work,
    )?;
    let inflated = inflate_one(
        quarantine,
        fence,
        entry.compressed.offset,
        body_end,
        entry.declared_size,
        true,
        kind,
        prefix.as_slice(),
        hash_algo,
        checkpoint,
        control,
        work,
    )?;
    if inflated.compressed_bytes != entry.compressed.length {
        return Err(PushPackValidationError::InvalidCompressedStream);
    }
    match inflated.collected {
        Some(data) => Ok((data, inflated.oid)),
        None => Err(PushPackValidationError::InvalidCompressedStream),
    }
}

/// A base for one delta.
struct DeltaBase {
    kind: ObjectKind,
    data: Vec<u8>,
    depth: u32,
    index: Option<usize>,
}

/// The base is the payload of a resolved entry, or an authorized outside object.
spec fn base_good(base: DeltaBase, indexer: PackIndexer, oid: Option<ObjectId>, algo: HashAlgo) -> bool {
    match base.index {
        Some(j) => {
            &&& j < indexer.entries@.len()
            &&& indexer.entries@[j as int].resolved is Some
            &&& indexer.entries@[j as int].resolved->0.kind == base.kind
            &&& indexer.entries@[j as int].resolved->0.depth == base.depth
            &&& base.data@ == indexer.payloads@[j as int]
        },
        None => {
            &&& oid is Some
            &&& base.depth == 0
            &&& canonical_id(algo, base.kind, base.data@) == oid->0
        },
    }
}

/// No more is cached than the payloads of resolved entries.
proof fn lemma_held(indexer: PackIndexer, pack: Seq<u8>, algo: HashAlgo, body_end: int)
    requires
        indexer.good(pack, algo, body_end),
    ensures
        indexer.cache_bytes <= held_bytes(indexer.entries@, indexer.payloads@),
{
    let entries = indexer.entries@;
    let cache = indexer.cache@;
    let payloads = indexer.payloads@;
    assert forall|i: int| 0 <= i < cache.len() && (#[trigger] cache[i]) is Some implies cache[i]->0@
        == payloads[i] && entries[i].resolved is Some by {
        assert(entries[i].resolved is None ==> cache[i] is None);
    }
    lemma_cached_held(entries, cache, payloads);
}

/// Get the payload of an entry, if it is resolved, and keep it cached.
fn materialize_base<Q: PackQuarantine, C: PushPackValidationControl, W: PushPackValidationWork>(
    quarantine: &mut Q,
    fence: QuarantineFence,
    index: usize,
    indexer: &mut PackIndexer,
    body_end: u64,
    hash_algo: HashAlgo,
    checkpoint: &mut ValidationCheckpoint,
    control: &mut C,
    work: &mut W,
) -> (result: Result<Option<DeltaBase>, PushPackValidationError>)
    requires
        old(indexer).good(old(quarantine).content(), hash_algo, body_end as int),
        old(checkpoint).options.valid(),
        old(checkpoint).timed::<C>(),
        index < old(indexer).entries@.len(),
    ensures
        final(quarantine).content() == old(quarantine).content(),
        final(quarantine).steps() == old(quarantine).steps(),
        reads_under(fence, old(quarantine).ranges(), final(quarantine).ranges()),
        final(quarantine).writes() == old(quarantine).writes(),
        result is Ok ==> reads_counted(
            *old(checkpoint),
            *final(checkpoint),
            old(quarantine).ranges(),
            final(quarantine).ranges(),
        ),
        final(checkpoint).options == old(checkpoint).options,
        final(checkpoint).external_operations == old(checkpoint).external_operations,
        final(checkpoint).timed::<C>(),
        result matches Err(error) ==> {
            ||| reading_explained::<Q, C, W>(
            fence,
            *old(checkpoint),
            old(quarantine).ranges(),
            final(quarantine).ranges(),
            error,
        )
            ||| exists|kind: Option<ObjectKind>| #[trigger]
                reread_refused(
                    old(quarantine).content(),
                    hash_algo,
                    body_end as int,
                    old(indexer).entries@[index as int],
                    kind,
                    error,
                )
            ||| error == PushPackValidationError::DeltaLimit && held_bytes(
                old(indexer).entries@,
                old(indexer).payloads@,
            ) + old(indexer).entries@[index as int].declared_size
                > old(checkpoint).options.limits.max_delta_base_memory_bytes
        },
        final(indexer).structural_bytes == old(indexer).structural_bytes,
        final(indexer).good(old(quarantine).content(), hash_algo, body_end as int),
        final(indexer).entries@ == old(indexer).entries@,
        final(indexer).payloads@ == old(indexer).payloads@,
        final(indexer).oids@ == old(indexer).oids@,
        final(indexer).summary == old(indexer).summary,
        final(indexer).structural@ == old(indexer).structural@,
        result is Ok && result->Ok_0 is Some ==> base_good(
            result->Ok_0->0,
            *final(indexer),
            None,
            hash_algo,
        ) && result->Ok_0->0.index == Some(index),
        result is Ok ==> (result->Ok_0 is Some <==> old(indexer).entries@[index as int].resolved is Some),
        old(indexer).entries@[index as int].resolved is None || old(indexer).cache@[index as int] is Some
            ==> result is Ok && *final(indexer) == *old(indexer) && *final(checkpoint) == *old(checkpoint) && *final(quarantine) == *old(quarantine),
        old(indexer).entries@[index as int].resolved is Some && old(indexer).cache@[index as int] is None
            ==> {
            let cached = old(indexer).cache_bytes + old(indexer).entries@[index as int].declared_size;
            if cached > old(checkpoint).options.limits.max_delta_base_memory_bytes {
                &&& result is Err
                &&& result->Err_0 == PushPackValidationError::DeltaLimit
                &&& *final(indexer) == *old(indexer)
            } else {
                &&& result is Err ==> *final(indexer) == *old(indexer)
                &&& result is Ok ==> final(indexer).cache_bytes == cached
                &&& result is Ok ==> final(indexer).cache@[index as int] is Some
            }
        },
{
    let ghost pack = quarantine.content();
    let entry: ParsedEntry = indexer.entries[index];
    proof {
        assert(entry_placed(pack, hash_algo, body_end as int, indexer.entries@, index as int));
        assert(entry_resolved(pack, hash_algo, indexer.entries@, indexer.payloads@, index as int));
    }
    let resolved = match entry.resolved {
        Some(resolved) => resolved,
        None => {
            return Ok(None);
        },
    };
    if let Some(data) = &indexer.cache[index] {
        let copy: Vec<u8> = copy_range(data.as_slice(), 0, data.len());
        assert(copy@ =~= data@);
        return Ok(
            Some(
                DeltaBase {
                    kind: resolved.kind,
                    data: copy,
                    depth: resolved.depth,
                    index: Some(index),
                },
            ),
        );
    }
    match entry.dependency {
        EntryDependency::Direct(_) => {},
        _ => {
            return Ok(None);
        },
    }
    let limits = checkpoint.options.limits;
    proof {
        lemma_held(*indexer, pack, hash_algo, body_end as int);
    }
    let next_cache_bytes: u64 = match indexer.cache_bytes.checked_add(entry.declared_size) {
        Some(total) => {
            if total > limits.max_delta_base_memory_bytes {
                return Err(PushPackValidationError::DeltaLimit);
            }
            total
        },
        None => {
            return Err(PushPackValidationError::DeltaLimit);
        },
    };
    let (data, oid) = inflate_entry_data(
        quarantine,
        fence,
        &entry,
        body_end,
        Some(resolved.kind),
        hash_algo,
        checkpoint,
        control,
        work,
    )?;
    if oid != Some(resolved.oid) {
        return Err(PushPackValidationError::InvalidPack);
    }
    let copy: Vec<u8> = copy_range(data.as_slice(), 0, data.len());
    assert(copy@ =~= data@);
    proof {
        lemma_cached_update(indexer.cache@, index as int, Some(copy));
    }
    indexer.cache_bytes = next_cache_bytes;
    indexer.cache.set(index, Some(copy));
    Ok(Some(DeltaBase { kind: resolved.kind, data, depth: resolved.depth, index: Some(index) }))
}

/// The run was stopped from outside.
spec fn stop_error(error: PushPackValidationError) -> bool {
    ||| error == PushPackValidationError::WorkBudget
    ||| error == PushPackValidationError::Cancelled
    ||| error == PushPackValidationError::Deadline
}

/// Look up an authorized base outside the quarantine, once per identity.
fn external_base<
    B: AuthorizedPushBaseProvider,
    C: PushPackValidationControl,
    W: PushPackValidationWork,
>(
    bases: &mut B,
    missing: &mut OidMap,
    tenant: &TenantId,
    repository: &RepositoryId,
    base_oid: ObjectId,
    hash_algo: HashAlgo,
    checkpoint: &mut ValidationCheckpoint,
    control: &mut C,
    work: &mut W,
) -> (result: Result<Option<DeltaBase>, PushPackValidationError>)
    requires
        old(checkpoint).options.valid(),
        old(checkpoint).timed::<C>(),
        asks_known::<B>(old(checkpoint).external_operations, tenant@, repository@),
        known_missing::<B>(tenant@, repository@, old(missing)@),
    ensures
        known_missing::<B>(tenant@, repository@, final(missing)@),
        final(checkpoint).options == old(checkpoint).options,
        final(checkpoint).range_operations == old(checkpoint).range_operations,
        asks_known::<B>(final(checkpoint).external_operations, tenant@, repository@),
        looked_up(
            old(bases).lookups(),
            final(bases).lookups(),
            tenant@,
            repository@,
            old(checkpoint).options.limits.max_object_bytes,
        ),
        lookups_counted(
            *old(checkpoint),
            *final(checkpoint),
            old(bases).lookups(),
            final(bases).lookups(),
        ),
        final(checkpoint).timed::<C>(),
        result matches Err(error) ==> match error {
            PushPackValidationError::InvalidExternalBase => base_failed::<B>(
                tenant@,
                repository@,
                hash_algo,
                old(checkpoint).options,
            ),
            PushPackValidationError::InvalidPack => zero_base::<B>(tenant@, repository@, hash_algo),
            PushPackValidationError::WorkBudget => W::answers(1, false) || base_asked::<B>(
                tenant@,
                repository@,
            ) && final(checkpoint).external_operations
                >= old(checkpoint).options.limits.max_external_operations,
            _ => stop_error(error) && stop_explained::<C, W>(old(checkpoint).options, 0, error),
        },
        old(missing)@.dom().contains(base_oid) ==> result == Ok::<
            Option<DeltaBase>,
            PushPackValidationError,
        >(None),
        result is Ok && result->Ok_0 is Some ==> {
            let base = result->Ok_0->0;
            &&& base.index is None
            &&& base.depth == 0
            &&& canonical_id(hash_algo, base.kind, base.data@) == base_oid
            &&& base.data@.len() <= old(checkpoint).options.limits.max_object_bytes
            &&& base_given::<B>(tenant@, repository@, hash_algo, base_oid)
        },
        result is Ok && result->Ok_0 is None ==> final(missing)@.dom().contains(base_oid)
            && B::gives(tenant@, repository@, base_oid, Ok(None)),
{
    if missing.contains(base_oid) {
        return Ok(None);
    }
    proof {
        crate::push_metrics::law_valid_limits_are_bounded(checkpoint.options.limits);
    }
    checkpoint.external_operation()?;
    let maximum: u64 = checkpoint.options.limits.max_object_bytes;
    match bases.read_base(tenant, repository, base_oid, maximum) {
        Ok(Some(base)) => {
            checkpoint.charge(control, work, 1)?;
            if base.data.len() as u64 > maximum {
                return Err(PushPackValidationError::InvalidExternalBase);
            }
            let found: ObjectId = object_id(base.kind, base.data.as_slice(), hash_algo);
            if found.is_zero() {
                return Err(PushPackValidationError::InvalidPack);
            }
            if found != base_oid {
                return Err(PushPackValidationError::InvalidExternalBase);
            }
            Ok(Some(DeltaBase { kind: base.kind, data: base.data, depth: 0, index: None }))
        },
        Ok(None) => {
            checkpoint.charge(control, work, 1)?;
            let _stored = missing.insert_new(base_oid, 0);
            Ok(None)
        },
        Err(_) => Err(PushPackValidationError::InvalidExternalBase),
    }
}

/// What one of the entries is refused for, whatever its base.
spec fn entry_stops<B: AuthorizedPushBaseProvider, S: StructuralParser>(
    tenant: Seq<char>,
    repository: Seq<char>,
    pack: Seq<u8>,
    algo: HashAlgo,
    end: int,
    limits: ReceivePackLimits,
    entries: Seq<ParsedEntry>,
    payloads: Seq<Seq<u8>>,
    at: int,
    error: PushPackValidationError,
) -> bool {
    ||| exists|kind: Option<ObjectKind>| #[trigger]
        reread_refused(pack, algo, end, entries[at], kind, error)
    ||| error == PushPackValidationError::InvalidPack && zero_base::<B>(
        tenant,
        repository,
        algo,
    )
    ||| error == PushPackValidationError::DeltaLimit && held_bytes(entries, payloads)
        + entries[at].declared_size > limits.max_delta_base_memory_bytes
    ||| exists|kind: ObjectKind, base: Seq<u8>, depth: u32| #[trigger]
        resolution_refused::<S>(
            pack,
            algo,
            limits,
            entries,
            payloads,
            at,
            kind,
            base,
            depth,
            error,
        )
}

/// A refused entry among those reached explains the error.
proof fn lemma_entries_refused<
    Q: PackQuarantine,
    B: AuthorizedPushBaseProvider,
    S: StructuralParser,
    C: PushPackValidationControl,
    W: PushPackValidationWork,
>(
    tenant: Seq<char>,
    repository: Seq<char>,
    pack: Seq<u8>,
    algo: HashAlgo,
    end: int,
    fence: QuarantineFence,
    start: ValidationCheckpoint,
    before: Seq<(QuarantineFence, u64, usize)>,
    after: Seq<(QuarantineFence, u64, usize)>,
    lookups: u64,
    entries: Seq<ParsedEntry>,
    payloads: Seq<Seq<u8>>,
    at: int,
    error: PushPackValidationError,
)
    requires
        reached(pack, algo, end, entries, payloads),
        0 <= at < entries.len(),
        entry_stops::<B, S>(
            tenant,
            repository,
            pack,
            algo,
            end,
            start.options.limits,
            entries,
            payloads,
            at,
            error,
        ),
    ensures
        resolving_explained::<Q, B, S, C, W>(
            tenant,
            repository,
            pack,
            algo,
            end,
            fence,
            start,
            before,
            after,
            lookups,
            error,
        ),
{
    reveal(entries_refused);
}

/// A refused delta refuses its entry.
proof fn lemma_delta_refused<S: StructuralParser>(
    pack: Seq<u8>,
    algo: HashAlgo,
    limits: ReceivePackLimits,
    entries: Seq<ParsedEntry>,
    payloads: Seq<Seq<u8>>,
    at: int,
    kind: ObjectKind,
    base: Seq<u8>,
    depth: u32,
)
    requires
        0 <= at < entries.len(),
        entries[at].resolved is None,
        base_serves(algo, entries, payloads, at, kind, base, depth),
        delta_refused(
            limits,
            entries[at].inflated(pack),
            kind,
            base,
            depth,
            held_bytes(entries, payloads),
        ),
    ensures
        resolution_refused::<S>(
            pack,
            algo,
            limits,
            entries,
            payloads,
            at,
            kind,
            base,
            depth,
            PushPackValidationError::DeltaLimit,
        ),
{
    reveal(resolution_refused);
}

/// A refused object refuses the entry whose delta makes it.
proof fn lemma_object_refused<S: StructuralParser>(
    pack: Seq<u8>,
    algo: HashAlgo,
    limits: ReceivePackLimits,
    entries: Seq<ParsedEntry>,
    payloads: Seq<Seq<u8>>,
    at: int,
    kind: ObjectKind,
    base: Seq<u8>,
    depth: u32,
    payload: Seq<u8>,
    error: PushPackValidationError,
)
    requires
        0 <= at < entries.len(),
        entries[at].resolved is None,
        base_serves(algo, entries, payloads, at, kind, base, depth),
        delta_makes(entries[at].inflated(pack), base, payload),
        object_refused::<S>(kind, payload, algo, limits, entries, error),
    ensures
        resolution_refused::<S>(
            pack,
            algo,
            limits,
            entries,
            payloads,
            at,
            kind,
            base,
            depth,
            error,
        ),
{
    reveal(resolution_refused);
}

/// The base that an entry names, where it was found: the named entry, or an outside object.
spec fn base_found<B: AuthorizedPushBaseProvider>(
    base: DeltaBase,
    tenant: Seq<char>,
    repository: Seq<char>,
    algo: HashAlgo,
    entries: Seq<ParsedEntry>,
    at: int,
) -> bool {
    match entries[at].dependency {
        EntryDependency::Direct(_) => false,
        EntryDependency::Ofs { base_index, .. } => base.index == Some(base_index),
        EntryDependency::Ref { base_oid } => match base.index {
            Some(j) => j < entries.len() && entries[j as int].resolved is Some
                && entries[j as int].resolved->0.oid == base_oid,
            None => {
                &&& base.depth == 0
                &&& canonical_id(algo, base.kind, base.data@) == base_oid
                &&& base_given::<B>(tenant, repository, algo, base_oid)
            },
        },
    }
}

/// Look up the base of one open entry.
#[verifier::rlimit(25)]
fn find_base<
    Q: PackQuarantine,
    B: AuthorizedPushBaseProvider,
    S: StructuralParser,
    C: PushPackValidationControl,
    W: PushPackValidationWork,
>(
    quarantine: &mut Q,
    fence: QuarantineFence,
    index: usize,
    indexer: &mut PackIndexer,
    missing: &mut OidMap,
    body_end: u64,
    hash_algo: HashAlgo,
    tenant: &TenantId,
    repository: &RepositoryId,
    bases: &mut B,
    checkpoint: &mut ValidationCheckpoint,
    control: &mut C,
    work: &mut W,
) -> (result: Result<Option<DeltaBase>, PushPackValidationError>)
    requires
        known_missing::<B>(tenant@, repository@, old(missing)@),
        old(indexer).good(old(quarantine).content(), hash_algo, body_end as int),
        old(checkpoint).options.valid(),
        old(checkpoint).timed::<C>(),
        asks_known::<B>(old(checkpoint).external_operations, tenant@, repository@),
        index < old(indexer).entries@.len(),
        old(indexer).entries@[index as int].resolved is None,
    ensures
        known_missing::<B>(tenant@, repository@, final(missing)@),
        final(quarantine).content() == old(quarantine).content(),
        final(quarantine).steps() == old(quarantine).steps(),
        reads_under(fence, old(quarantine).ranges(), final(quarantine).ranges()),
        final(quarantine).writes() == old(quarantine).writes(),
        result is Ok ==> reads_counted(
            *old(checkpoint),
            *final(checkpoint),
            old(quarantine).ranges(),
            final(quarantine).ranges(),
        ),
        final(checkpoint).options == old(checkpoint).options,
        asks_known::<B>(final(checkpoint).external_operations, tenant@, repository@),
        looked_up(
            old(bases).lookups(),
            final(bases).lookups(),
            tenant@,
            repository@,
            old(checkpoint).options.limits.max_object_bytes,
        ),
        lookups_counted(
            *old(checkpoint),
            *final(checkpoint),
            old(bases).lookups(),
            final(bases).lookups(),
        ),
        final(checkpoint).timed::<C>(),
        final(indexer).good(old(quarantine).content(), hash_algo, body_end as int),
        final(indexer).entries@ == old(indexer).entries@,
        final(indexer).payloads@ == old(indexer).payloads@,
        final(indexer).oids@ == old(indexer).oids@,
        final(indexer).summary == old(indexer).summary,
        final(indexer).structural@ == old(indexer).structural@,
        final(indexer).structural_bytes == old(indexer).structural_bytes,
        result matches Err(error) ==> resolving_explained::<Q, B, S, C, W>(
            tenant@,
            repository@,
            old(quarantine).content(),
            hash_algo,
            body_end as int,
            fence,
            *old(checkpoint),
            old(quarantine).ranges(),
            final(quarantine).ranges(),
            final(checkpoint).external_operations,
            error,
        ),
        result is Ok && result->Ok_0 is None ==> *final(indexer) == *old(indexer) && waits::<B>(
            tenant@,
            repository@,
            old(indexer).entries@,
            index as int,
        ),
        result is Ok && result->Ok_0 is Some ==> base_found::<B>(
            result->Ok_0->0,
            tenant@,
            repository@,
            hash_algo,
            old(indexer).entries@,
            index as int,
        ) && (result->Ok_0->0.index is Some ==> base_good(
            result->Ok_0->0,
            *final(indexer),
            None,
            hash_algo,
        )),
{
    let ghost pack = quarantine.content();
    let ghost start_entries = indexer.entries@;
    let ghost start_payloads = indexer.payloads@;
    let entry: ParsedEntry = indexer.entries[index];
    proof {
        assert(reached(pack, hash_algo, body_end as int, start_entries, start_payloads));
        assert(entry_placed(pack, hash_algo, body_end as int, indexer.entries@, index as int));
    }
    checkpoint.charge(control, work, 1)?;
    let found: Option<DeltaBase> = match entry.dependency {
        EntryDependency::Direct(_) => {
            return Ok(None);
        },
        EntryDependency::Ofs { base_index, .. } => {
            match materialize_base(
                    quarantine,
                    fence,
                    base_index,
                    indexer,
                    body_end,
                    hash_algo,
                    checkpoint,
                    control,
                    work,
                ) {
                    Ok(found) => found,
                    Err(error) => {
                        proof {
                            if !reading_explained::<Q, C, W>(
                                fence,
                                *old(checkpoint),
                                old(quarantine).ranges(),
                                quarantine.ranges(),
                                error,
                            ) {
                                lemma_entries_refused::<Q, B, S, C, W>(
                tenant@,
                repository@,
                pack,
                hash_algo,
                body_end as int,
                fence,
                *old(checkpoint),
                old(quarantine).ranges(),
                quarantine.ranges(),
                checkpoint.external_operations,
                start_entries,
                start_payloads,
                base_index as int,
                error,
            );
                            }
                        }
                        return Err(error);
                    },
                }
        },
        EntryDependency::Ref { base_oid } => {
            match indexer.oids.get(base_oid) {
                Some(base_index) => {
                    match materialize_base(
                    quarantine,
                    fence,
                    base_index as usize,
                    indexer,
                    body_end,
                    hash_algo,
                    checkpoint,
                    control,
                    work,
                ) {
                    Ok(found) => found,
                    Err(error) => {
                        proof {
                            if !reading_explained::<Q, C, W>(
                                fence,
                                *old(checkpoint),
                                old(quarantine).ranges(),
                                quarantine.ranges(),
                                error,
                            ) {
                                lemma_entries_refused::<Q, B, S, C, W>(
                tenant@,
                repository@,
                pack,
                hash_algo,
                body_end as int,
                fence,
                *old(checkpoint),
                old(quarantine).ranges(),
                quarantine.ranges(),
                checkpoint.external_operations,
                start_entries,
                start_payloads,
                base_index as int,
                error,
            );
                            }
                        }
                        return Err(error);
                    },
                }
                },
                None => match external_base(
                    bases,
                    missing,
                    tenant,
                    repository,
                    base_oid,
                    hash_algo,
                    checkpoint,
                    control,
                    work,
                ) {
                    Ok(found) => found,
                    Err(error) => {
                        proof {
                            if error == PushPackValidationError::InvalidPack {
                                lemma_entries_refused::<Q, B, S, C, W>(
                tenant@,
                repository@,
                pack,
                hash_algo,
                body_end as int,
                fence,
                *old(checkpoint),
                old(quarantine).ranges(),
                quarantine.ranges(),
                checkpoint.external_operations,
                start_entries,
                start_payloads,
                index as int,
                error,
            );
                            }
                        }
                        return Err(error);
                    },
                },
            }
        },
    };
    Ok(found)
}

/// Inflate the instructions of one open entry, check them and apply them to its base.
#[verifier::rlimit(25)]
fn make_payload<
    Q: PackQuarantine,
    B: AuthorizedPushBaseProvider,
    S: StructuralParser,
    C: PushPackValidationControl,
    W: PushPackValidationWork,
>(
    quarantine: &mut Q,
    fence: QuarantineFence,
    index: usize,
    indexer: &PackIndexer,
    base: &DeltaBase,
    body_end: u64,
    hash_algo: HashAlgo,
    tenant: &TenantId,
    repository: &RepositoryId,
    checkpoint: &mut ValidationCheckpoint,
    control: &mut C,
    work: &mut W,
) -> (result: Result<(Vec<u8>, DeltaBudget), PushPackValidationError>)
    requires
        indexer.good(old(quarantine).content(), hash_algo, body_end as int),
        old(checkpoint).options.valid(),
        old(checkpoint).timed::<C>(),
        index < indexer.entries@.len(),
        indexer.entries@[index as int].resolved is None,
        base_serves(
            hash_algo,
            indexer.entries@,
            indexer.payloads@,
            index as int,
            base.kind,
            base.data@,
            base.depth,
        ),
    ensures
        final(quarantine).content() == old(quarantine).content(),
        final(quarantine).steps() == old(quarantine).steps(),
        reads_under(fence, old(quarantine).ranges(), final(quarantine).ranges()),
        final(quarantine).writes() == old(quarantine).writes(),
        result is Ok ==> reads_counted(
            *old(checkpoint),
            *final(checkpoint),
            old(quarantine).ranges(),
            final(quarantine).ranges(),
        ),
        final(checkpoint).options == old(checkpoint).options,
        final(checkpoint).external_operations == old(checkpoint).external_operations,
        final(checkpoint).timed::<C>(),
        result matches Err(error) ==> resolving_explained::<Q, B, S, C, W>(
            tenant@,
            repository@,
            old(quarantine).content(),
            hash_algo,
            body_end as int,
            fence,
            *old(checkpoint),
            old(quarantine).ranges(),
            final(quarantine).ranges(),
            final(checkpoint).external_operations,
            error,
        ),
        result matches Ok((payload, budget)) ==> {
            let delta = indexer.entries@[index as int].inflated(old(quarantine).content());
            &&& delta_makes(delta, base.data@, payload@)
            &&& payload@.len() <= u64::MAX
            &&& delta.len() <= u64::MAX
            &&& delta_allowed(
                old(checkpoint).options.limits,
                base.kind,
                base.data@.len() as u64,
                base.depth,
                base.data@.len() as u64,
                payload@.len() as u64,
                delta.len() as u64,
                indexer.cache_bytes,
            )
            &&& budget.depth == base.depth + 1
            &&& budget.expansion == expansion_of(payload@.len() as int, delta.len() as int)
            &&& budget.cache_bytes == indexer.cache_bytes + payload@.len()
        },
{
    let ghost pack = quarantine.content();
    let ghost start_entries = indexer.entries@;
    let ghost start_payloads = indexer.payloads@;
    let limits = checkpoint.options.limits;
    let entry: ParsedEntry = indexer.entries[index];
    proof {
        assert(reached(pack, hash_algo, body_end as int, start_entries, start_payloads));
        assert(entry_placed(pack, hash_algo, body_end as int, indexer.entries@, index as int));
    }
    let (instructions, _unused) = match inflate_entry_data(
        quarantine,
        fence,
        &entry,
        body_end,
        None,
        hash_algo,
        checkpoint,
        control,
        work,
    ) {
        Ok(inflated) => inflated,
        Err(error) => {
            proof {
                if !reading_explained::<Q, C, W>(
                                fence,
                                *old(checkpoint),
                                old(quarantine).ranges(),
                                quarantine.ranges(),
                                error,
                            ) {
                    lemma_entries_refused::<Q, B, S, C, W>(
                tenant@,
                repository@,
                pack,
                hash_algo,
                body_end as int,
                fence,
                *old(checkpoint),
                old(quarantine).ranges(),
                quarantine.ranges(),
                checkpoint.external_operations,
                start_entries,
                start_payloads,
                index as int,
                error,
            );
                }
            }
            return Err(error);
        },
    };
    let ghost delta = entry.inflated(pack);
    proof {
        lemma_held(*indexer, pack, hash_algo, body_end as int);
    }
    let ghost held = held_bytes(start_entries, start_payloads);
    let (source_size, result_size, body) = match delta_sizes(instructions.as_slice()) {
        Ok(sizes) => sizes,
        Err(error) => {
            proof {
                assert(delta_refused(
                    limits,
                    delta,
                    base.kind,
                    base.data@,
                    base.depth,
                    held,
                )) by {
                    reveal(delta_refused);
                    assert forall|source: u64, target: u64| !(#[trigger] sizes_at(
                        delta,
                        source,
                        target,
                    )) by {
                        assert((source as nat) < two64() && (target as nat) < two64());
                    }
                }
                lemma_delta_refused::<S>(
                    pack,
                    hash_algo,
                    limits,
                    start_entries,
                    start_payloads,
                    index as int,
                    base.kind,
                    base.data@,
                    base.depth,
                );
                lemma_entries_refused::<Q, B, S, C, W>(
                tenant@,
                repository@,
                pack,
                hash_algo,
                body_end as int,
                fence,
                *old(checkpoint),
                old(quarantine).ranges(),
                quarantine.ranges(),
                checkpoint.external_operations,
                start_entries,
                start_payloads,
                index as int,
                error,
            );
            }
            return Err(error);
        },
    };
    assert(sizes_at(delta, source_size, result_size));
    let cached: u64 = indexer.cache_bytes;
    let budget = match check_delta(
        &limits,
        base.kind,
        base.data.len() as u64,
        base.depth,
        source_size,
        result_size,
        instructions.len() as u64,
        cached,
    ) {
        Ok(budget) => budget,
        Err(error) => {
            proof {
                assert(delta_refused(
                    limits,
                    delta,
                    base.kind,
                    base.data@,
                    base.depth,
                    held,
                )) by {
                    reveal(delta_refused);
                    assert(sizes_at(delta, source_size, result_size));
                    assert(!delta_allowed(
                        limits,
                        base.kind,
                        base.data@.len() as u64,
                        base.depth,
                        source_size,
                        result_size,
                        delta.len() as u64,
                        cached,
                    ));
                }
                lemma_delta_refused::<S>(
                    pack,
                    hash_algo,
                    limits,
                    start_entries,
                    start_payloads,
                    index as int,
                    base.kind,
                    base.data@,
                    base.depth,
                );
                lemma_entries_refused::<Q, B, S, C, W>(
                tenant@,
                repository@,
                pack,
                hash_algo,
                body_end as int,
                fence,
                *old(checkpoint),
                old(quarantine).ranges(),
                quarantine.ranges(),
                checkpoint.external_operations,
                start_entries,
                start_payloads,
                index as int,
                error,
            );
            }
            return Err(error);
        },
    };
    let units: u64 = result_size.saturating_add(instructions.len() as u64);
    checkpoint.charge(control, work, units)?;
    if result_size > usize::MAX as u64 {
        proof {
                let error = PushPackValidationError::DeltaLimit;
                assert(delta_refused(
                    limits,
                    delta,
                    base.kind,
                    base.data@,
                    base.depth,
                    held,
                )) by {
                    reveal(delta_refused);
                    assert(sizes_at(delta, source_size, result_size));
                }
                lemma_delta_refused::<S>(
                    pack,
                    hash_algo,
                    limits,
                    start_entries,
                    start_payloads,
                    index as int,
                    base.kind,
                    base.data@,
                    base.depth,
                );
                lemma_entries_refused::<Q, B, S, C, W>(
                tenant@,
                repository@,
                pack,
                hash_algo,
                body_end as int,
                fence,
                *old(checkpoint),
                old(quarantine).ranges(),
                quarantine.ranges(),
                checkpoint.external_operations,
                start_entries,
                start_payloads,
                index as int,
                error,
            );
            }
        return Err(PushPackValidationError::DeltaLimit);
    }
    let payload: Vec<u8> = match apply_instructions(
        base.data.as_slice(),
        instructions.as_slice(),
        body,
        result_size as usize,
    ) {
        Some(payload) => payload,
        None => {
            proof {
                let error = PushPackValidationError::DeltaLimit;
                assert(delta_refused(
                    limits,
                    delta,
                    base.kind,
                    base.data@,
                    base.depth,
                    held,
                )) by {
                    reveal(delta_refused);
                    assert(sizes_at(delta, source_size, result_size));
                }
                lemma_delta_refused::<S>(
                    pack,
                    hash_algo,
                    limits,
                    start_entries,
                    start_payloads,
                    index as int,
                    base.kind,
                    base.data@,
                    base.depth,
                );
                lemma_entries_refused::<Q, B, S, C, W>(
                tenant@,
                repository@,
                pack,
                hash_algo,
                body_end as int,
                fence,
                *old(checkpoint),
                old(quarantine).ranges(),
                quarantine.ranges(),
                checkpoint.external_operations,
                start_entries,
                start_payloads,
                index as int,
                error,
            );
            }
            return Err(PushPackValidationError::DeltaLimit);
        },
    };
    assert(delta_makes(entry.inflated(pack), base.data@, payload@));
    Ok((payload, budget))
}

/// Try to resolve one open entry; `true` means that it is resolved now.
#[verifier::rlimit(30)]
fn resolve_entry<
    Q: PackQuarantine,
    B: AuthorizedPushBaseProvider,
    S: StructuralParser,
    C: PushPackValidationControl,
    W: PushPackValidationWork,
>(
    quarantine: &mut Q,
    fence: QuarantineFence,
    index: usize,
    indexer: &mut PackIndexer,
    missing: &mut OidMap,
    body_end: u64,
    hash_algo: HashAlgo,
    tenant: &TenantId,
    repository: &RepositoryId,
    bases: &mut B,
    parser: &mut S,
    checkpoint: &mut ValidationCheckpoint,
    control: &mut C,
    work: &mut W,
) -> (result: Result<bool, PushPackValidationError>)
    requires
        known_missing::<B>(tenant@, repository@, old(missing)@),
        entries_given::<B>(tenant@, repository@, hash_algo, old(indexer).entries@),
        old(indexer).good(old(quarantine).content(), hash_algo, body_end as int),
        old(checkpoint).options.valid(),
        old(checkpoint).timed::<C>(),
        asks_known::<B>(old(checkpoint).external_operations, tenant@, repository@),
        index < old(indexer).entries@.len(),
        old(indexer).entries@[index as int].resolved is None,
        old(indexer).kept::<S>(hash_algo, old(checkpoint).options.limits),
    ensures
        known_missing::<B>(tenant@, repository@, final(missing)@),
        final(quarantine).content() == old(quarantine).content(),
        final(quarantine).steps() == old(quarantine).steps(),
        reads_under(fence, old(quarantine).ranges(), final(quarantine).ranges()),
        final(quarantine).writes() == old(quarantine).writes(),
        result is Ok ==> reads_counted(
            *old(checkpoint),
            *final(checkpoint),
            old(quarantine).ranges(),
            final(quarantine).ranges(),
        ),
        final(checkpoint).options == old(checkpoint).options,
        asks_known::<B>(final(checkpoint).external_operations, tenant@, repository@),
        looked_up(
            old(bases).lookups(),
            final(bases).lookups(),
            tenant@,
            repository@,
            old(checkpoint).options.limits.max_object_bytes,
        ),
        lookups_counted(
            *old(checkpoint),
            *final(checkpoint),
            old(bases).lookups(),
            final(bases).lookups(),
        ),
        final(checkpoint).timed::<C>(),
        result matches Err(error) ==> resolving_explained::<Q, B, S, C, W>(
            tenant@,
            repository@,
            old(quarantine).content(),
            hash_algo,
            body_end as int,
            fence,
            *old(checkpoint),
            old(quarantine).ranges(),
            final(quarantine).ranges(),
            final(checkpoint).external_operations,
            error,
        ),
        result is Ok ==> {
            &&& final(indexer).good(old(quarantine).content(), hash_algo, body_end as int)
            &&& entries_given::<B>(tenant@, repository@, hash_algo, final(indexer).entries@)
            &&& final(indexer).kept::<S>(hash_algo, old(checkpoint).options.limits)
            &&& final(indexer).entries@.len() == old(indexer).entries@.len()
            &&& next_offset(final(indexer).entries@, final(indexer).entries@.len() as int)
                == next_offset(old(indexer).entries@, old(indexer).entries@.len() as int)
            &&& final(indexer).summary.objects == old(indexer).summary.objects
            &&& result->Ok_0 ==> count_open(final(indexer).entries@) + 1 == count_open(
                old(indexer).entries@,
            )
            &&& result->Ok_0 ==> {
                let resolved = final(indexer).entries@[index as int].resolved;
                &&& resolved is Some
                &&& final(indexer).entries@ == old(indexer).entries@.update(
                    index as int,
                    ParsedEntry { resolved, ..old(indexer).entries@[index as int] },
                )
            }
            &&& !result->Ok_0 ==> *final(indexer) == *old(indexer) && waits::<B>(
                tenant@,
                repository@,
                old(indexer).entries@,
                index as int,
            )
        },
{
    let ghost pack = quarantine.content();
    let ghost start_entries = indexer.entries@;
    let ghost start_payloads = indexer.payloads@;
    let limits = checkpoint.options.limits;
    let entry: ParsedEntry = indexer.entries[index];
    proof {
        assert(reached(pack, hash_algo, body_end as int, start_entries, start_payloads));
        assert(entry_placed(pack, hash_algo, body_end as int, indexer.entries@, index as int));
    }
    let found: Option<DeltaBase> = find_base::<Q, B, S, C, W>(
        quarantine,
        fence,
        index,
        indexer,
        missing,
        body_end,
        hash_algo,
        tenant,
        repository,
        bases,
        checkpoint,
        control,
        work,
    )?;
    let base = match found {
        Some(base) => base,
        None => {
            return Ok(false);
        },
    };
    proof {
        assert(base_serves(
            hash_algo,
            start_entries,
            start_payloads,
            index as int,
            base.kind,
            base.data@,
            base.depth,
        )) by {
            reveal(base_serves);
            if base.index is Some {
                assert(start_entries[base.index->0 as int].resolved is Some);
            }
        }
    }
    let (payload, budget) = make_payload::<Q, B, S, C, W>(
        quarantine,
        fence,
        index,
        indexer,
        &base,
        body_end,
        hash_algo,
        tenant,
        repository,
        checkpoint,
        control,
        work,
    )?;
    let result_size: u64 = payload.len() as u64;
    assert(delta_makes(entry.inflated(pack), base.data@, payload@));
    let oid: ObjectId = object_id(base.kind, payload.as_slice(), hash_algo);
    if oid.is_zero() {
        proof {
            let error = PushPackValidationError::InvalidPack;
            assert(object_refused::<S>(
                base.kind,
                payload@,
                hash_algo,
                limits,
                start_entries,
                error,
            )) by {
                reveal(object_refused);
            }
            lemma_object_refused::<S>(
                pack,
                hash_algo,
                limits,
                start_entries,
                start_payloads,
                index as int,
                base.kind,
                base.data@,
                base.depth,
                payload@,
                error,
            );
            lemma_entries_refused::<Q, B, S, C, W>(
                tenant@,
                repository@,
                pack,
                hash_algo,
                body_end as int,
                fence,
                *old(checkpoint),
                old(quarantine).ranges(),
                quarantine.ranges(),
                checkpoint.external_operations,
                start_entries,
                start_payloads,
                index as int,
                error,
            );
        }
        return Err(PushPackValidationError::InvalidPack);
    }
    let ghost oids_before = indexer.oids@;
    if !indexer.oids.insert_new(oid, index as u64) {
        proof {
            let error = PushPackValidationError::DuplicateObject;
            lemma_duplicate::<S>(
                base.kind,
                payload@,
                hash_algo,
                limits,
                start_entries,
                oids_before,
            );
            lemma_object_refused::<S>(
                pack,
                hash_algo,
                limits,
                start_entries,
                start_payloads,
                index as int,
                base.kind,
                base.data@,
                base.depth,
                payload@,
                error,
            );
            lemma_entries_refused::<Q, B, S, C, W>(
                tenant@,
                repository@,
                pack,
                hash_algo,
                body_end as int,
                fence,
                *old(checkpoint),
                old(quarantine).ranges(),
                quarantine.ranges(),
                checkpoint.external_operations,
                start_entries,
                start_payloads,
                index as int,
                error,
            );
        }
        return Err(PushPackValidationError::DuplicateObject);
    }
    assert(indexer.oids@.remove(oid) =~= oids_before);
    let mut summary = indexer.summary;
    let ghost kept_before = indexer.structural@;
    let ghost payloads_before = indexer.payloads@;
    proof {
        lemma_counts_bounded(start_entries);
        assert(count_kind(start_entries, base.kind) <= start_entries.len());
    }
    match retain_structural(
        oid,
        base.kind,
        payload.as_slice(),
        hash_algo,
        parser,
        &mut indexer.structural,
        &mut indexer.structural_bytes,
        limits.max_structural_memory_bytes,
        &mut summary,
    ) {
        Ok(_) => {},
        Err(error) => {
            proof {
                lemma_structure_refused::<S>(
                    base.kind,
                    payload@,
                    hash_algo,
                    limits,
                    start_entries,
                    error,
                );
                lemma_object_refused::<S>(
                pack,
                hash_algo,
                limits,
                start_entries,
                start_payloads,
                index as int,
                base.kind,
                base.data@,
                base.depth,
                payload@,
                error,
            );
            lemma_entries_refused::<Q, B, S, C, W>(
                tenant@,
                repository@,
                pack,
                hash_algo,
                body_end as int,
                fence,
                *old(checkpoint),
                old(quarantine).ranges(),
                quarantine.ranges(),
                checkpoint.external_operations,
                start_entries,
                start_payloads,
                index as int,
                error,
            );
            }
            return Err(error);
        },
    }
    if base.kind == ObjectKind::Blob {
        summary.blobs = checked_add(summary.blobs, 1)?;
    }
    let external: bool = base.index.is_none();
    if external {
        summary.external_bases = checked_add(summary.external_bases, 1)?;
    }
    if summary.maximum_delta_depth < budget.depth {
        summary.maximum_delta_depth = budget.depth;
    }
    if summary.maximum_delta_expansion_ratio < budget.expansion {
        summary.maximum_delta_expansion_ratio = budget.expansion;
    }
    indexer.summary = summary;
    indexer.cache_bytes = budget.cache_bytes;
    let resolved = ResolvedEntry {
        oid,
        kind: base.kind,
        size: result_size,
        depth: budget.depth,
        external,
    };
    let ghost base_index: Option<int> = match base.index {
        Some(j) => Some(j as int),
        None => None,
    };
    proof {
        assert(indexer.entries@ == start_entries);
        if let EntryDependency::Ref { base_oid } = entry.dependency {
            if base_index is Some {
                assert(oids_before.dom().contains(base_oid));
                assert(indexer.entries@[base_index->0].resolved->0.oid == base_oid);
            }
        }
        lemma_structural_update(
            start_entries,
            index as int,
            (ParsedEntry { resolved: Some(resolved), ..entry }),
        );
        lemma_kept_update::<S>(
            kept_before,
            indexer.structural@,
            start_entries,
            payloads_before,
            index as int,
            (ParsedEntry { resolved: Some(resolved), ..entry }),
            payload@,
            hash_algo,
        );
    }
    indexer.resolve(
        index,
        resolved,
        payload,
        Ghost(base_index),
        Ghost(base.data@),
        Ghost(pack),
        Ghost(hash_algo),
        Ghost(body_end as int),
    );
    Ok(true)
}

/// Resolve every open entry, in rounds, until none is left.
fn resolve_all<
    Q: PackQuarantine,
    B: AuthorizedPushBaseProvider,
    S: StructuralParser,
    C: PushPackValidationControl,
    W: PushPackValidationWork,
>(
    quarantine: &mut Q,
    fence: QuarantineFence,
    indexer: &mut PackIndexer,
    body_end: u64,
    hash_algo: HashAlgo,
    tenant: &TenantId,
    repository: &RepositoryId,
    bases: &mut B,
    parser: &mut S,
    checkpoint: &mut ValidationCheckpoint,
    control: &mut C,
    work: &mut W,
) -> (result: Result<(), PushPackValidationError>)
    requires
        entries_given::<B>(tenant@, repository@, hash_algo, old(indexer).entries@),
        old(indexer).good(old(quarantine).content(), hash_algo, body_end as int),
        old(indexer).kept::<S>(hash_algo, old(checkpoint).options.limits),
        old(checkpoint).options.valid(),
        old(checkpoint).timed::<C>(),
        asks_known::<B>(old(checkpoint).external_operations, tenant@, repository@),
    ensures
        final(quarantine).content() == old(quarantine).content(),
        final(quarantine).steps() == old(quarantine).steps(),
        reads_under(fence, old(quarantine).ranges(), final(quarantine).ranges()),
        final(quarantine).writes() == old(quarantine).writes(),
        result is Ok ==> reads_counted(
            *old(checkpoint),
            *final(checkpoint),
            old(quarantine).ranges(),
            final(quarantine).ranges(),
        ),
        final(checkpoint).options == old(checkpoint).options,
        asks_known::<B>(final(checkpoint).external_operations, tenant@, repository@),
        looked_up(
            old(bases).lookups(),
            final(bases).lookups(),
            tenant@,
            repository@,
            old(checkpoint).options.limits.max_object_bytes,
        ),
        lookups_counted(
            *old(checkpoint),
            *final(checkpoint),
            old(bases).lookups(),
            final(bases).lookups(),
        ),
        final(checkpoint).timed::<C>(),
        result matches Err(error) ==> resolving_explained::<Q, B, S, C, W>(
            tenant@,
            repository@,
            old(quarantine).content(),
            hash_algo,
            body_end as int,
            fence,
            *old(checkpoint),
            old(quarantine).ranges(),
            final(quarantine).ranges(),
            final(checkpoint).external_operations,
            error,
        ),
        result is Ok ==> {
            &&& final(indexer).good(old(quarantine).content(), hash_algo, body_end as int)
            &&& entries_given::<B>(tenant@, repository@, hash_algo, final(indexer).entries@)
            &&& final(indexer).kept::<S>(hash_algo, old(checkpoint).options.limits)
            &&& final(indexer).entries@.len() == old(indexer).entries@.len()
            &&& next_offset(final(indexer).entries@, final(indexer).entries@.len() as int)
                == next_offset(old(indexer).entries@, old(indexer).entries@.len() as int)
            &&& final(indexer).summary.objects == old(indexer).summary.objects
            &&& forall|i: int|
                0 <= i < final(indexer).entries@.len() ==> (#[trigger] final(indexer).entries@[i]).resolved is Some
        },
{
    let ghost pack = quarantine.content();
    let ghost first = *indexer;
    let mut missing = OidMap::new();
    let total: usize = indexer.entries.len();
    loop
        invariant
            quarantine.content() == pack,
            quarantine.steps() == old(quarantine).steps(),
            reads_under(fence, old(quarantine).ranges(), quarantine.ranges()),
            quarantine.writes() == old(quarantine).writes(),
            reads_counted(
                *old(checkpoint),
                *checkpoint,
                old(quarantine).ranges(),
                quarantine.ranges(),
            ),
            pack == old(quarantine).content(),
            checkpoint.options == old(checkpoint).options,
            checkpoint.timed::<C>(),
            asks_known::<B>(checkpoint.external_operations, tenant@, repository@),
            looked_up(
                old(bases).lookups(),
                bases.lookups(),
                tenant@,
                repository@,
                checkpoint.options.limits.max_object_bytes,
            ),
            lookups_counted(
                *old(checkpoint),
                *checkpoint,
                old(bases).lookups(),
                bases.lookups(),
            ),
            checkpoint.options.valid(),
            indexer.good(pack, hash_algo, body_end as int),
            known_missing::<B>(tenant@, repository@, missing@),
            entries_given::<B>(tenant@, repository@, hash_algo, indexer.entries@),
            indexer.kept::<S>(hash_algo, checkpoint.options.limits),
            indexer.entries@.len() == total,
            total == first.entries@.len(),
            first == *old(indexer),
            next_offset(indexer.entries@, total as int) == next_offset(
                first.entries@,
                total as int,
            ),
            indexer.summary.objects == first.summary.objects,
        decreases count_open(indexer.entries@),
    {
        let ghost open_before = count_open(indexer.entries@);
        let ghost round = indexer.entries@;
        let mut progress: usize = 0;
        let mut open: usize = 0;
        let mut index: usize = 0;
        while index < total
            invariant
                quarantine.content() == pack,
                quarantine.steps() == old(quarantine).steps(),
                reads_under(fence, old(quarantine).ranges(), quarantine.ranges()),
                quarantine.writes() == old(quarantine).writes(),
                reads_counted(
                    *old(checkpoint),
                    *checkpoint,
                    old(quarantine).ranges(),
                    quarantine.ranges(),
                ),
                pack == old(quarantine).content(),
                checkpoint.options == old(checkpoint).options,
                checkpoint.timed::<C>(),
                asks_known::<B>(checkpoint.external_operations, tenant@, repository@),
                looked_up(
                    old(bases).lookups(),
                    bases.lookups(),
                    tenant@,
                    repository@,
                    checkpoint.options.limits.max_object_bytes,
                ),
                lookups_counted(
                    *old(checkpoint),
                    *checkpoint,
                    old(bases).lookups(),
                    bases.lookups(),
                ),
                checkpoint.options.valid(),
                indexer.good(pack, hash_algo, body_end as int),
                known_missing::<B>(tenant@, repository@, missing@),
                entries_given::<B>(tenant@, repository@, hash_algo, indexer.entries@),
                indexer.kept::<S>(hash_algo, checkpoint.options.limits),
                indexer.entries@.len() == total,
                index <= total,
                progress <= index,
                open <= index,
                count_open(indexer.entries@) + progress == open_before,
                progress == 0 ==> indexer.entries@ == round && forall|i: int|
                    0 <= i < index && (#[trigger] round[i]).resolved is None ==> waits::<B>(
                        tenant@,
                        repository@,
                        round,
                        i,
                    ),
                open > 0 && progress == 0 ==> exists|i: int|
                    0 <= i < index && (#[trigger] round[i]).resolved is None,
                open == 0 ==> progress == 0 && forall|i: int|
                    0 <= i < index ==> (#[trigger] indexer.entries@[i]).resolved is Some,
                next_offset(indexer.entries@, total as int) == next_offset(
                    first.entries@,
                    total as int,
                ),
                indexer.summary.objects == first.summary.objects,
            decreases total - index,
        {
            if indexer.entries[index].resolved.is_none() {
                assert(progress == 0 ==> round[index as int].resolved is None);
                open = open + 1;
                let ghost asked = bases.lookups();
                let resolving = resolve_entry(
                    quarantine,
                    fence,
                    index,
                    indexer,
                    &mut missing,
                    body_end,
                    hash_algo,
                    tenant,
                    repository,
                    bases,
                    parser,
                    checkpoint,
                    control,
                    work,
                );
                proof {
                    lemma_looked_up(
                        old(bases).lookups(),
                        asked,
                        bases.lookups(),
                        tenant@,
                        repository@,
                        checkpoint.options.limits.max_object_bytes,
                    );
                }
                if resolving? {
                    progress = progress + 1;
                }
            }
            index = index + 1;
        }
        if open == 0 {
            return Ok(());
        }
        if progress == 0 {
            proof {
                reveal(entries_refused);
                assert(stuck::<B>(tenant@, repository@, indexer.entries@));
                assert(reached(
                    pack,
                    hash_algo,
                    body_end as int,
                    indexer.entries@,
                    indexer.payloads@,
                ));
            }
            return Err(PushPackValidationError::UnresolvedDependency);
        }
    }
}

/// Turn completely resolved entries into index rows.
fn build_index(
    entries: &Vec<ParsedEntry>,
    Ghost(pack): Ghost<Seq<u8>>,
    Ghost(algo): Ghost<HashAlgo>,
    Ghost(body_end): Ghost<int>,
) -> (rows: Vec<PushPackIndexRow>)
    requires
        body_end <= u64::MAX,
        tiled(pack, algo, body_end, entries@),
        forall|i: int| 0 <= i < entries@.len() ==> (#[trigger] entries@[i]).resolved is Some,
    ensures
        rows@.len() == entries@.len(),
        forall|i: int| 0 <= i < entries@.len() ==> #[trigger] rows@[i] == row_of(entries@, i),
{
    let mut rows: Vec<PushPackIndexRow> = Vec::new();
    let mut at: usize = 0;
    while at < entries.len()
        invariant
            at <= entries@.len(),
            body_end <= u64::MAX,
            tiled(pack, algo, body_end, entries@),
            forall|i: int| 0 <= i < entries@.len() ==> (#[trigger] entries@[i]).resolved is Some,
            rows@.len() == at,
            forall|i: int| 0 <= i < at ==> #[trigger] rows@[i] == row_of(entries@, i),
        decreases entries.len() - at,
    {
        let entry: ParsedEntry = entries[at];
        proof {
            assert(entry_placed(pack, algo, body_end, entries@, at as int));
        }
        if let Some(resolved) = entry.resolved {
            let representation = match entry.dependency {
                EntryDependency::Direct(_) => PushPackEntryKind::Direct,
                EntryDependency::Ofs { base_index, base_offset } => {
                    let base = rows[base_index];
                    PushPackEntryKind::OfsDelta { base_offset, base_oid: base.oid }
                },
                EntryDependency::Ref { base_oid } => PushPackEntryKind::RefDelta {
                    base_oid,
                    external: resolved.external,
                },
            };
            let length: u64 = entry.compressed.offset + entry.compressed.length
                - entry.entry_offset;
            rows.push(
                PushPackIndexRow {
                    ordinal: entry.ordinal,
                    oid: resolved.oid,
                    kind: resolved.kind,
                    entry: PushPackByteSpan { offset: entry.entry_offset, length },
                    header: entry.header,
                    base_header: entry.base_header,
                    compressed: entry.compressed,
                    declared_size: entry.declared_size,
                    resolved_size: resolved.size,
                    delta_depth: resolved.depth,
                    crc32: entry.crc32,
                    representation,
                },
            );
        }
        at = at + 1;
    }
    rows
}

/// Some row needs a base from outside.
pub open spec fn needs_outside(rows: Seq<PushPackIndexRow>) -> bool {
    exists|i: int|
        0 <= i < rows.len() && ((#[trigger] rows[i]).representation matches
            PushPackEntryKind::RefDelta { external, .. } && external)
}

/// The first twelve bytes announce `count` entries of PACK version 2 or 3.
pub open spec fn announces(pack: Seq<u8>, count: int) -> bool {
    &&& pack.len() >= 12
    &&& pack.subrange(0, 4) == seq![0x50u8, 0x41u8, 0x43u8, 0x4bu8]
    &&& (crate::bytes::be_value(pack.subrange(4, 8)) == 2 || crate::bytes::be_value(
        pack.subrange(4, 8),
    ) == 3)
    &&& crate::bytes::be_value(pack.subrange(8, 12)) == count
}

/// What a successful validation says of the quarantined bytes: they are the announced PACK, every
/// entry's payload is justified by them, and what is kept and counted is that of the entries.
pub open spec fn validated_from<S: StructuralParser>(
    validated: ValidatedPushPack,
    pack: Seq<u8>,
    limits: ReceivePackLimits,
) -> bool {
    let rows = validated.index@;
    let algo = validated.attestation.pack_checksum.spec_algo();
    &&& announces(pack, rows.len() as int)
    &&& exists|body_end: int, entries: Seq<ParsedEntry>, payloads: Seq<Seq<u8>>|
        #[trigger] index_of(pack, algo, body_end, rows, entries, payloads) && pack.subrange(
            body_end,
            body_end + algo.spec_len(),
        ) == validated.attestation.pack_checksum@ && sealed_counts(validated.summary, entries)
            && structure_kept::<S>(validated.structural_objects@, entries, payloads, algo)
            && entries_within(entries, limits)
    &&& validated.attestation == (QuarantineIndexAttestation {
        pack_checksum: validated.attestation.pack_checksum,
        index_checksum: index_checksum_of(rows, validated.attestation.pack_checksum, algo),
        object_count: rows.len() as u32,
        self_contained: !needs_outside(rows),
        validation_complete: true,
    })
    &&& validated.summary.objects == rows.len()
}

/// The validated pack is the one that the manifest describes.
pub open spec fn manifest_matched(
    validated: ValidatedPushPack,
    manifest: QuarantineManifest,
) -> bool {
    &&& manifest.object_count == validated.index@.len()
    &&& manifest.pack_checksum == Some(validated.attestation.pack_checksum)
}

/// Every count is that of the entries.
pub open spec fn sealed_counts(
    summary: PushValidationSummary,
    entries: Seq<ParsedEntry>,
) -> bool {
    &&& summary.direct_objects == count_direct(entries)
    &&& summary.ofs_deltas == count_ofs(entries)
    &&& summary.direct_objects + summary.ofs_deltas + summary.ref_deltas == entries.len()
    &&& summary.inflated_bytes == sum_declared(entries)
    &&& kinds_counted(summary, entries)
}

/// Read the twelve-byte header and the trailer of a sealed PACK.
fn open_pack<Q: PackQuarantine, C: PushPackValidationControl, W: PushPackValidationWork>(
    quarantine: &mut Q,
    fence: QuarantineFence,
    manifest: &QuarantineManifest,
    pack_checksum: ObjectId,
    checkpoint: &mut ValidationCheckpoint,
    control: &mut C,
    work: &mut W,
) -> (result: Result<(u32, u64), PushPackValidationError>)
    requires
        old(checkpoint).timed::<C>(),
        manifest_ready(*manifest, pack_checksum),
        manifest.pack_checksum == Some(pack_checksum),
    ensures
        final(quarantine).content() == old(quarantine).content(),
        final(quarantine).steps() == old(quarantine).steps(),
        reads_under(fence, old(quarantine).ranges(), final(quarantine).ranges()),
        final(quarantine).writes() == old(quarantine).writes(),
        result is Ok ==> reads_counted(
            *old(checkpoint),
            *final(checkpoint),
            old(quarantine).ranges(),
            final(quarantine).ranges(),
        ),
        final(checkpoint).options == old(checkpoint).options,
        final(checkpoint).external_operations == old(checkpoint).external_operations,
        final(checkpoint).timed::<C>(),
        result matches Err(error) ==> reading_explained::<Q, C, W>(
            fence,
            *old(checkpoint),
            old(quarantine).ranges(),
            final(quarantine).ranges(),
            error,
        )
            || opening_refused(
            old(quarantine).content(),
            *manifest,
            old(checkpoint).options,
            error,
        ),
        result is Ok ==> {
            let (count, body_end) = result->Ok_0;
            let pack = old(quarantine).content();
            let width = manifest.hash_algo.spec_len() as int;
            &&& announces(pack, count as int)
            &&& count == manifest.object_count
            &&& body_end == manifest.pack_bytes - width
            &&& body_end + width <= pack.len()
            &&& pack.subrange(body_end as int, body_end + width) == pack_checksum@
        },
{
    let ghost pack = quarantine.content();
    let options = checkpoint.options;
    checkpoint.charge(control, work, 1)?;
    let header: Vec<u8> = read_exact(quarantine, fence, 0, 12, checkpoint, control, work)?;
    if header[0] != 0x50 || header[1] != 0x41 || header[2] != 0x43 || header[3] != 0x4b {
        return Err(PushPackValidationError::InvalidPack);
    }
    let version: u128 = read_be(header.as_slice(), 4, 8);
    let count: u128 = read_be(header.as_slice(), 8, 12);
    proof {
        assert(header@.subrange(4, 8) =~= pack.subrange(4, 8));
        assert(header@.subrange(8, 12) =~= pack.subrange(8, 12));
        assert(pack.subrange(0, 4) =~= seq![header@[0], header@[1], header@[2], header@[3]]);
    }
    if (version != 2 && version != 3) || count != manifest.object_count as u128 || count
        > options.limits.max_objects as u128 {
        return Err(PushPackValidationError::InvalidPack);
    }
    validate_index_budget(manifest.object_count, options.max_index_bytes)?;
    let width: usize = manifest.hash_algo.len();
    let body_end: u64 = manifest.pack_bytes - width as u64;
    let trailer: Vec<u8> = read_exact(
        quarantine,
        fence,
        body_end,
        width,
        checkpoint,
        control,
        work,
    )?;
    let expected: Vec<u8> = pack_checksum.to_bytes();
    if !crate::bytes::same_bytes(trailer.as_slice(), expected.as_slice()) {
        return Err(PushPackValidationError::InvalidPack);
    }
    Ok((manifest.object_count, body_end))
}

/// Validate and index a sealed private quarantine and store its attestation.
///
/// Success means that the entries tile the body exactly, that every stream inflates to its declared
/// size, that every delta applies to its base, and that every row's identity is the digest of the
/// payload that its entry resolves to.
pub fn validate_quarantined_pack<
    Q: PackQuarantine,
    B: AuthorizedPushBaseProvider,
    S: StructuralParser,
    C: PushPackValidationControl,
    W: PushPackValidationWork,
>(
    quarantine: &mut Q,
    fence: QuarantineFence,
    bases: &mut B,
    parser: &mut S,
    control: &mut C,
    work: &mut W,
    options: PushPackValidationOptions,
) -> (result: Result<ValidatedPushPack, PushPackValidationError>)
    ensures
        final(quarantine).content() == old(quarantine).content(),
        reads_under(fence, old(quarantine).ranges(), final(quarantine).ranges()),
        final(quarantine).writes() == old(quarantine).writes(),
        !options.valid() ==> result is Err && result->Err_0
            == PushPackValidationError::InvalidLimits,
        options.valid() ==> match quarantine_fault(old(quarantine).described(), fence) {
            Some(fault) => result is Err && result->Err_0 == fault,
            None => result matches Err(error) ==> validation_explained::<Q, B, S, C, W>(
                old(quarantine).described(),
                old(quarantine).content(),
                fence,
                final(quarantine).ranges().len() - old(quarantine).ranges().len(),
                old(bases).lookups(),
                final(bases).lookups(),
                options,
                error,
            ),
        },
        looked_up(
            old(bases).lookups(),
            final(bases).lookups(),
            old(quarantine).described().tenant@,
            old(quarantine).described().repository@,
            options.limits.max_object_bytes,
        ),
        lookups_within(old(bases).lookups(), final(bases).lookups(), options),
        result matches Ok(validated) ==> validated_from::<S>(
            validated,
            old(quarantine).content(),
            options.limits,
        ) && manifest_matched(validated, old(quarantine).described().manifest->0)
            && rows_given::<B>(
            old(quarantine).described().tenant@,
            old(quarantine).described().repository@,
            old(quarantine).described().manifest->0.hash_algo,
            validated.index@,
        ),
        final(quarantine).steps() == match result {
            Ok(validated) => old(quarantine).steps().push(
                QuarantineStep::Attested {
                    fence,
                    attestation: validated.attestation,
                    attested: validated.fence,
                },
            ),
            Err(_) => old(quarantine).steps(),
        },
{
    if let Err(error) = options.validate() {
        return Err(error);
    }
    let snapshot = quarantine.snapshot();
    if snapshot.state != QuarantineState::Validated || snapshot.generation != fence.generation {
        return Err(PushPackValidationError::InvalidQuarantine);
    }
    let manifest = match snapshot.manifest {
        Some(manifest) => manifest,
        None => {
            return Err(PushPackValidationError::InvalidQuarantine);
        },
    };
    let pack_checksum: ObjectId = match manifest.pack_checksum {
        Some(checksum) => checksum,
        None => {
            return Err(PushPackValidationError::InvalidPack);
        },
    };
    validate_manifest_shape(&manifest, pack_checksum)?;
    let hash_algo = manifest.hash_algo;
    let mut checkpoint = ValidationCheckpoint::new(options);
    let (count, body_end) = open_pack(
        quarantine,
        fence,
        &manifest,
        pack_checksum,
        &mut checkpoint,
        control,
        work,
    )?;
    let ghost pack = quarantine.content();
    let mut indexer = PackIndexer::new();
    let mut cursor: u64 = 12;
    let mut ordinal: u32 = 0;
    assert(indexer.good(pack, hash_algo, body_end as int));
    while ordinal < count
        invariant
            quarantine.content() == pack,
            quarantine.steps() == old(quarantine).steps(),
            reads_under(fence, old(quarantine).ranges(), quarantine.ranges()),
            quarantine.writes() == old(quarantine).writes(),
            checkpoint.range_operations == quarantine.ranges().len() - old(
                quarantine,
            ).ranges().len(),
            pack == old(quarantine).content(),
            quarantine_fault(old(quarantine).described(), fence) is None,
            checkpoint.options == options,
            checkpoint.timed::<C>(),
            checkpoint.external_operations == 0,
            *bases == *old(bases),
            options.valid(),
            ordinal <= count,
            indexer.entries@.len() == ordinal,
            indexer.good(pack, hash_algo, body_end as int),
            entries_given::<B>(
                snapshot.tenant@,
                snapshot.repository@,
                hash_algo,
                indexer.entries@,
            ),
            indexer.kept::<S>(hash_algo, options.limits),
            body_end <= pack.len(),
            cursor == next_offset(indexer.entries@, ordinal as int),
            snapshot == old(quarantine).described(),
            snapshot.manifest == Some(manifest),
            hash_algo == manifest.hash_algo,
            body_end == manifest.pack_bytes - hash_algo.spec_len(),
            count == manifest.object_count,
        decreases count - ordinal,
    {
        assert(reached(
            pack,
            hash_algo,
            body_end as int,
            indexer.entries@,
            indexer.payloads@,
        ));
        cursor =
        parse_entry(
            quarantine,
            fence,
            &mut indexer,
            cursor,
            body_end,
            hash_algo,
            parser,
            &mut checkpoint,
            control,
            work,
        )?;
        proof {
            let entries = indexer.entries@;
            let parsed = entries.drop_last();
            assert forall|i: int|
                0 <= i < entries.len() && (#[trigger] entries[i]).resolved is Some
                    && entries[i].resolved->0.external implies (entries[i].dependency matches
                EntryDependency::Ref { base_oid } && base_given::<B>(
                snapshot.tenant@,
                snapshot.repository@,
                hash_algo,
                base_oid,
            )) by {
                assert(i < parsed.len());
                assert(parsed[i] == entries[i]);
            }
        }
        ordinal = ordinal + 1;
    }
    assert(reached(pack, hash_algo, body_end as int, indexer.entries@, indexer.payloads@));
    if cursor != body_end {
        return Err(PushPackValidationError::InvalidPack);
    }
    resolve_all(
        quarantine,
        fence,
        &mut indexer,
        body_end,
        hash_algo,
        &snapshot.tenant,
        &snapshot.repository,
        bases,
        parser,
        &mut checkpoint,
        control,
        work,
    )?;
    let index: Vec<PushPackIndexRow> = build_index(
        &indexer.entries,
        Ghost(pack),
        Ghost(hash_algo),
        Ghost(body_end as int),
    );
    let mut summary = indexer.summary;
    summary.objects = index.len() as u64;
    let checksum: ObjectId = index_checksum(&index, pack_checksum, hash_algo)?;
    let attestation = QuarantineIndexAttestation::validated(
        pack_checksum,
        checksum,
        count,
        !indexer.used_external,
    );
    proof {
        lemma_index_complete(pack, hash_algo, body_end as int, indexer, index@);
    }
    checkpoint.charge(control, work, 1)?;
    let fence: QuarantineFence = match quarantine.attest_index(fence, attestation) {
        Ok(fence) => fence,
        Err(_) => {
            return Err(PushPackValidationError::Quarantine);
        },
    };
    Ok(
        ValidatedPushPack {
            index,
            structural_objects: indexer.structural,
            summary,
            attestation,
            fence,
        },
    )
}

/// Rows built from a complete indexer form a complete index, and some row needs an outside base
/// exactly when some entry did.
proof fn lemma_index_complete(
    pack: Seq<u8>,
    algo: HashAlgo,
    body_end: int,
    indexer: PackIndexer,
    rows: Seq<PushPackIndexRow>,
)
    requires
        indexer.good(pack, algo, body_end),
        next_offset(indexer.entries@, indexer.entries@.len() as int) == body_end,
        forall|i: int|
            0 <= i < indexer.entries@.len() ==> (#[trigger] indexer.entries@[i]).resolved is Some,
        rows.len() == indexer.entries@.len(),
        forall|i: int|
            0 <= i < indexer.entries@.len() ==> #[trigger] rows[i] == row_of(
                indexer.entries@,
                i,
            ),
    ensures
        index_of(pack, algo, body_end, rows, indexer.entries@, indexer.payloads@),
        needs_outside(rows) == indexer.used_external,
{
    let entries = indexer.entries@;
    assert forall|i: int, j: int|
        #![trigger rows[i], rows[j]]
        0 <= i < j < rows.len() implies rows[i].oid != rows[j].oid by {
        assert(entries[i].resolved is Some);
        assert(entries[j].resolved is Some);
    }
    if needs_outside(rows) {
        let i = choose|i: int|
            0 <= i < rows.len() && ((#[trigger] rows[i]).representation matches
                PushPackEntryKind::RefDelta { external, .. } && external);
        assert(entries[i].resolved is Some && entries[i].resolved->0.external);
    }
    if some_external(entries) {
        let i = choose|i: int|
            0 <= i < entries.len() && (#[trigger] entries[i]).resolved is Some
                && entries[i].resolved->0.external;
        assert(entry_resolved(pack, algo, entries, indexer.payloads@, i));
        assert(rows[i] == row_of(entries, i));
    }
}

} // verus!
