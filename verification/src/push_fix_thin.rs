//! Bounded conversion of a validated thin PACK into a self-contained one.
//!
//! The source quarantine stays sealed. A deterministic plan authorizes each external base; the
//! rewriter copies the validated source entries into a distinct empty quarantine, appends every
//! required base as a direct entry, and writes a new header and trailer.

use crate::budget::{spends, work_kept};
use crate::bytes::{append_bytes, be_bytes, copy_range, push_be_u64, read_be};
use crate::canonical_clone_serve::chunk_count;
use crate::clock::Timestamp;
use crate::digest::{canonical_id, digest_of, hashed_id, StreamHasher};
use crate::object::{
    object_header, object_header_bytes, HashAlgo, ObjectId, ObjectKind, RepositoryId, TenantId,
};
use crate::oid_map::OidMap;
use crate::push_metrics::ReceivePackLimits;
use crate::push_pack_validation::{
    base_failed, law_refusals_are_about_bytes, pack_refused, quarantine_fault, validate_quarantined_pack, validated_from,
    NoAuthorizedPushBases, PushPackByteSpan,
    PushPackEntryKind, PushPackIndexRow, PushPackValidationControl, PushPackValidationError,
    PushPackValidationObservation, PushPackValidationOptions, PushPackValidationWork,
    StructuralParser, ValidatedPushPack, MAX_PREFIX_BYTES,
};
use crate::push_quarantine::{
    reads_under, unattested, unreadable, unsealed, unwritable, writes_under, PackQuarantine, QuarantineFence, QuarantineId,
    QuarantineManifest, QuarantineSnapshot, QuarantineState, QuarantineStep,
};
use crate::varint::{entry_header, push_entry_header};
use crate::zlib::{
    compress_new, compress_step, compress_total_in, compress_total_out, deflate_input,
    deflate_outcome, deflate_output, zeroed, zlib_decoded, ZlibStatus,
};
use vstd::prelude::*;

verus! {

const FIX_THIN_BASE_OVERHEAD: u64 = 128;

/// Authorization decision attached to existing-base metadata.
#[derive(Clone, Copy, Debug, PartialEq, Eq, Structural)]
pub enum ThinBaseAuthorization {
    /// Policy permits using the object as a push delta base.
    Allowed,
    /// Policy forbids using the object for this push.
    Denied,
}

/// Metadata of one existing object that may thicken a PACK.
#[derive(Debug)]
pub struct AuthorizedThinBase {
    /// Tenant that the authorization is bound to.
    pub tenant: TenantId,
    /// Repository that the authorization is bound to.
    pub repository: RepositoryId,
    /// Object ID.
    pub oid: ObjectId,
    /// Object kind.
    pub kind: ObjectKind,
    /// Exact decoded payload bytes.
    pub payload_bytes: u64,
    /// Policy decision.
    pub authorization: ThinBaseAuthorization,
    /// Nonzero provider version that metadata and range reads are bound to.
    pub authorization_version: u64,
}

/// Existing-base source failure.
#[derive(Clone, Copy, Debug, PartialEq, Eq, Structural)]
pub struct ThinBaseSourceError;

/// Repository-scoped metadata and exact-range source of existing bases.
pub trait AuthorizedThinBaseProvider {
    /// The last bases asked for were described this way, or not at all.
    closed spec fn described(
        &self,
        tenant: TenantId,
        repository: RepositoryId,
        oids: Seq<ObjectId>,
        max_metadata_bytes: u64,
        answer: Option<Seq<AuthorizedThinBase>>,
    ) -> bool {
        true
    }

    /// A range read of a base may be answered so.
    closed spec fn reads_base(
        tenant: Seq<char>,
        repository: Seq<char>,
        oid: ObjectId,
        authorization_version: u64,
        offset: u64,
        length: usize,
        answer: Result<Vec<u8>, ThinBaseSourceError>,
    ) -> bool {
        true
    }

    /// Describe requested bases without payloads, in any order.
    fn describe_bases(
        &mut self,
        tenant: &TenantId,
        repository: &RepositoryId,
        oids: &Vec<ObjectId>,
        max_metadata_bytes: u64,
    ) -> (result: Result<Vec<AuthorizedThinBase>, ThinBaseSourceError>)
        ensures
            final(self).described(
                *tenant,
                *repository,
                oids@,
                max_metadata_bytes,
                match result {
                    Ok(bases) => Some(bases@),
                    Err(_) => None,
                },
            ),
    ;

    /// Read exactly one bounded payload range at the described version.
    fn read_base_range(
        &mut self,
        tenant: &TenantId,
        repository: &RepositoryId,
        oid: ObjectId,
        authorization_version: u64,
        offset: u64,
        length: usize,
    ) -> (result: Result<Vec<u8>, ThinBaseSourceError>)
        ensures
            Self::reads_base(
                tenant@,
                repository@,
                oid,
                authorization_version,
                offset,
                length,
                result,
            ),
    ;
}

/// Thickening work checkpoint.
pub trait FixThinWork {
    /// A charge may be answered so.
    closed spec fn answers(units: u64, charged: bool) -> bool {
        true
    }

    /// Units left, where the budget counts them.
    closed spec fn allowance(&self) -> Option<nat> {
        None
    }

    /// Charge work units; `false` means that the budget is exhausted.
    fn charge(&mut self, units: u64) -> (charged: bool)
        ensures
            Self::answers(units, charged),
            spends(old(self).allowance(), final(self).allowance(), units, charged),
    ;
}

/// Counter-backed thickening work allowance.
#[derive(Clone, Copy, Debug, PartialEq, Eq, Structural)]
pub struct FixThinWorkLimit {
    remaining: u64,
}

impl FixThinWorkLimit {
    /// The units left.
    pub closed spec fn left(self) -> u64 {
        self.remaining
    }

    /// Create an allowance.
    pub fn new(units: u64) -> (limit: Self)
        ensures
            limit.left() == units,
    {
        FixThinWorkLimit { remaining: units }
    }

    /// Return the units left.
    pub fn remaining(&self) -> (units: u64)
        ensures
            units == self.left(),
    {
        self.remaining
    }
}

impl FixThinWork for FixThinWorkLimit {
    /// A charge of nothing is never refused.
    open spec fn answers(units: u64, charged: bool) -> bool {
        charged || units > 0
    }

    /// What is left.
    open spec fn allowance(&self) -> Option<nat> {
        Some(self.left() as nat)
    }

    fn charge(&mut self, units: u64) -> (charged: bool)
        ensures
            charged == (units <= old(self).left()),
            final(self).left() == if charged {
                old(self).left() - units
            } else {
                old(self).left() as int
            },
    {
        if units > self.remaining {
            return false;
        }
        self.remaining = self.remaining - units;
        true
    }
}

/// Caller-supplied cancellation and time observation.
#[derive(Clone, Copy, Debug, PartialEq, Eq, Structural)]
pub struct FixThinObservation {
    /// Observation time.
    pub observed_at: Timestamp,
    /// Cancellation signal.
    pub cancelled: bool,
}

/// Thickening control.
pub trait FixThinControl {
    /// The source may make this observation.
    closed spec fn observes(observation: FixThinObservation) -> bool {
        true
    }

    /// Return the latest observation.
    fn observe(&mut self) -> (observation: FixThinObservation)
        ensures
            Self::observes(observation),
    ;
}

/// Work allowance of the final validation, drawn from the thickening allowance.
struct ValidationWorkAdapter<'a, W>(&'a mut W);

impl<'a, W: FixThinWork> PushPackValidationWork for ValidationWorkAdapter<'a, W> {
    open spec fn answers(units: u64, charged: bool) -> bool {
        W::answers(units, charged)
    }

    fn charge(&mut self, units: u64) -> bool {
        self.0.charge(units)
    }
}

/// Control of the final validation, drawn from the thickening control.
struct ValidationControlAdapter<'a, C> {
    control: &'a mut C,
    last_observed_at: Timestamp,
    rollback_detected: bool,
}

impl<'a, C: FixThinControl> PushPackValidationControl for ValidationControlAdapter<'a, C> {
    open spec fn observes(adapted: PushPackValidationObservation) -> bool {
        exists|observation: FixThinObservation| #[trigger]
            C::observes(observation) && adapts(observation, adapted)
    }

    fn observe(&mut self) -> PushPackValidationObservation {
        let observation = self.control.observe();
        let (adapted, rolled_back) = adapt_observation(observation, self.last_observed_at);
        if rolled_back {
            self.rollback_detected = true;
        }
        self.last_observed_at = adapted.observed_at;
        adapted
    }
}

/// An observation is handed on as it is, or, where it lies before the last one, as a cancellation.
pub open spec fn adapts(
    observation: FixThinObservation,
    adapted: PushPackValidationObservation,
) -> bool {
    ||| adapted.observed_at == observation.observed_at && adapted.cancelled == observation.cancelled
    ||| adapted.cancelled && observation.observed_at.unix_nanos < adapted.observed_at.unix_nanos
}

/// Hand an observation on; one before `last` becomes a cancellation at `last`.
pub fn adapt_observation(observation: FixThinObservation, last: Timestamp) -> (adapted: (
    PushPackValidationObservation,
    bool,
))
    ensures
        adapted.1 == (observation.observed_at.unix_nanos < last.unix_nanos),
        adapted.0 == if adapted.1 {
            PushPackValidationObservation { observed_at: last, cancelled: true }
        } else {
            PushPackValidationObservation {
                observed_at: observation.observed_at,
                cancelled: observation.cancelled,
            }
        },
{
    if observation.observed_at.unix_nanos < last.unix_nanos {
        (PushPackValidationObservation { observed_at: last, cancelled: true }, true)
    } else {
        (
            PushPackValidationObservation {
                observed_at: observation.observed_at,
                cancelled: observation.cancelled,
            },
            false,
        )
    }
}

/// Planner and rewriter configuration.
#[derive(Clone, Copy, Debug, PartialEq, Eq, Structural)]
pub struct FixThinOptions {
    /// Shared receive-pack limits.
    pub limits: ReceivePackLimits,
    /// Maximum distinct external bases added.
    pub max_added_bases: usize,
    /// Maximum aggregate decoded bytes across added bases.
    pub max_added_base_bytes: u64,
    /// Maximum source range read.
    pub source_chunk_bytes: usize,
    /// Maximum existing-base range read.
    pub base_chunk_bytes: usize,
    /// Maximum compression and append chunk.
    pub output_chunk_bytes: usize,
    /// Phase start.
    pub started_at: Timestamp,
    /// Phase deadline.
    pub deadline: Timestamp,
}

impl FixThinOptions {
    /// The options may be used.
    pub open spec fn valid(self) -> bool {
        &&& self.limits.fault() is None
        &&& 0 < self.max_added_bases <= self.limits.max_objects
        &&& 0 < self.max_added_base_bytes <= self.limits.max_inflated_bytes
        &&& 0 < self.source_chunk_bytes <= self.limits.bytes_in_flight
        &&& 0 < self.base_chunk_bytes
        &&& 0 < self.output_chunk_bytes
        &&& self.base_chunk_bytes + self.output_chunk_bytes <= self.limits.bytes_in_flight
        &&& self.started_at.unix_nanos < self.deadline.unix_nanos
        &&& self.deadline.unix_nanos - self.started_at.unix_nanos <= self.limits.max_duration.nanos
    }

    /// Validate ceilings and time relationships.
    pub fn validate(self) -> (result: Result<Self, FixThinError>)
        ensures
            result == if self.valid() {
                Ok::<Self, FixThinError>(self)
            } else {
                Err(FixThinError::InvalidLimits)
            },
    {
        if self.limits.validate().is_err() {
            return Err(FixThinError::InvalidLimits);
        }
        let in_flight: u128 = self.limits.bytes_in_flight as u128;
        if self.max_added_bases == 0 || self.max_added_bases > self.limits.max_objects
            || self.max_added_base_bytes == 0 || self.max_added_base_bytes
            > self.limits.max_inflated_bytes || self.source_chunk_bytes == 0
            || self.base_chunk_bytes == 0 || self.output_chunk_bytes == 0
            || self.source_chunk_bytes as u128 > in_flight || self.base_chunk_bytes as u128
            + self.output_chunk_bytes as u128 > in_flight || self.deadline.unix_nanos
            <= self.started_at.unix_nanos {
            return Err(FixThinError::InvalidLimits);
        }
        proof {
            crate::push_metrics::law_valid_limits_are_bounded(self.limits);
        }
        match self.deadline.unix_nanos.checked_sub(self.started_at.unix_nanos) {
            Some(elapsed) => {
                if elapsed as u128 > self.limits.max_duration.nanos {
                    return Err(FixThinError::InvalidLimits);
                }
                Ok(self)
            },
            None => Err(FixThinError::InvalidLimits),
        }
    }
}

/// Pre-publication thin-pack failure.
#[derive(Clone, Copy, Debug, PartialEq, Eq, Structural)]
pub enum FixThinError {
    /// Limits are invalid or inconsistent.
    InvalidLimits,
    /// Validation evidence, index spans or target state is inconsistent.
    InvalidBinding,
    /// The PACK is already self-contained.
    NotRequired,
    /// A requested base is missing.
    MissingBase,
    /// Base metadata or payload does not match.
    CorruptBase,
    /// Base scope or authorization is invalid.
    UnauthorizedBase,
    /// A bound was exceeded.
    Limit,
    /// A quarantine operation failed.
    Quarantine,
    /// Compression made no progress or failed.
    Compression,
    /// Work allowance was exhausted.
    WorkBudget,
    /// Cancellation was observed.
    Cancelled,
    /// Deadline elapsed or time moved backwards.
    Deadline,
    /// A bounded allocation failed.
    Allocation,
    /// Replacement PACK validation failed.
    Validation(PushPackValidationError),
}

/// One direct-base addition in a [`FixThinPlan`].
#[derive(Clone, Copy, Debug, PartialEq, Eq, Structural)]
pub struct FixThinBase {
    /// Object ID.
    pub oid: ObjectId,
    /// Object kind.
    pub kind: ObjectKind,
    /// Exact decoded payload bytes.
    pub payload_bytes: u64,
    /// Provider version for every range read.
    pub authorization_version: u64,
}

impl FixThinBase {
    /// Return the object ID.
    pub fn oid(&self) -> (oid: ObjectId)
        ensures
            oid == self.oid,
    {
        self.oid
    }

    /// Return the object kind.
    pub fn kind(&self) -> (kind: ObjectKind)
        ensures
            kind == self.kind,
    {
        self.kind
    }

    /// Return the exact decoded payload bytes.
    pub fn payload_bytes(&self) -> (bytes: u64)
        ensures
            bytes == self.payload_bytes,
    {
        self.payload_bytes
    }

    /// Return the provider version for every range read.
    pub fn authorization_version(&self) -> (version: u64)
        ensures
            version == self.authorization_version,
    {
        self.authorization_version
    }
}

/// Plan for converting one sealed thin PACK.
#[derive(Debug)]
pub struct FixThinPlan {
    tenant: TenantId,
    repository: RepositoryId,
    source_quarantine: QuarantineId,
    source_generation: u64,
    source_pack_checksum: ObjectId,
    source_index_checksum: ObjectId,
    bases: Vec<FixThinBase>,
    added_base_bytes: u64,
    work_units: u64,
    output_upper_bound: u64,
    fingerprint: ObjectId,
}

impl FixThinPlan {
    /// The tenant scope.
    pub closed spec fn spec_tenant(self) -> Seq<char> {
        self.tenant@
    }

    /// The repository scope.
    pub closed spec fn spec_repository(self) -> Seq<char> {
        self.repository@
    }

    /// The source quarantine and its generation.
    pub closed spec fn spec_source(self) -> (QuarantineId, u64) {
        (self.source_quarantine, self.source_generation)
    }

    /// The source PACK and index checksums.
    pub closed spec fn spec_checksums(self) -> (ObjectId, ObjectId) {
        (self.source_pack_checksum, self.source_index_checksum)
    }

    /// The required bases in identity order.
    pub closed spec fn spec_bases(self) -> Seq<FixThinBase> {
        self.bases@
    }

    /// The aggregate decoded base bytes.
    pub closed spec fn spec_added_bytes(self) -> u64 {
        self.added_base_bytes
    }

    /// The planned work units.
    pub closed spec fn spec_work_units(self) -> u64 {
        self.work_units
    }

    /// The output byte bound.
    pub closed spec fn spec_output_bound(self) -> u64 {
        self.output_upper_bound
    }

    /// The plan binding.
    pub closed spec fn spec_fingerprint(self) -> ObjectId {
        self.fingerprint
    }

    /// Borrow the tenant scope.
    pub fn tenant(&self) -> (tenant: &TenantId)
        ensures
            tenant@ == self.spec_tenant(),
    {
        &self.tenant
    }

    /// Borrow the repository scope.
    pub fn repository(&self) -> (repository: &RepositoryId)
        ensures
            repository@ == self.spec_repository(),
    {
        &self.repository
    }

    /// Borrow required bases in identity order.
    pub fn bases(&self) -> (bases: &Vec<FixThinBase>)
        ensures
            bases@ == self.spec_bases(),
    {
        &self.bases
    }

    /// Return the distinct added-base count.
    pub fn added_base_count(&self) -> (count: usize)
        ensures
            count == self.spec_bases().len(),
    {
        self.bases.len()
    }

    /// Return the aggregate decoded added-base bytes.
    pub fn added_base_bytes(&self) -> (bytes: u64)
        ensures
            bytes == self.spec_added_bytes(),
    {
        self.added_base_bytes
    }

    /// Return the planned work units.
    pub fn work_units(&self) -> (units: u64)
        ensures
            units == self.spec_work_units(),
    {
        self.work_units
    }

    /// Return the complete output byte bound.
    pub fn output_upper_bound(&self) -> (bytes: u64)
        ensures
            bytes == self.spec_output_bound(),
    {
        self.output_upper_bound
    }

    /// Return the plan binding.
    pub fn fingerprint(&self) -> (fingerprint: ObjectId)
        ensures
            fingerprint == self.spec_fingerprint(),
    {
        self.fingerprint
    }
}

/// Streaming thickening measurements.
#[derive(Clone, Copy, Debug, PartialEq, Eq, Structural)]
pub struct FixThinReport {
    /// Source PACK bytes read, excluding header and trailer.
    pub copied_entry_bytes: u64,
    /// Existing-base bytes read and hashed.
    pub added_base_bytes: u64,
    /// New direct-entry bytes, including entry headers.
    pub added_packed_bytes: u64,
    /// Complete rewritten PACK bytes including trailer.
    pub output_pack_bytes: u64,
    /// Source range operations.
    pub source_reads: u64,
    /// Existing-base range operations.
    pub base_reads: u64,
    /// Target append operations.
    pub target_appends: u64,
}

/// Validated self-contained replacement quarantine and index.
#[derive(Debug)]
pub struct FixedThinPack {
    /// Validation result bound to the replacement quarantine.
    pub validated: ValidatedPushPack,
    /// Replacement manifest.
    pub manifest: QuarantineManifest,
    /// Rewrite measurements.
    pub report: FixThinReport,
    /// Fingerprint of the plan used.
    pub plan_fingerprint: ObjectId,
}

/// Observe time and cancellation, then charge units.
fn checkpoint<W: FixThinWork, C: FixThinControl>(
    options: &FixThinOptions,
    work: &mut W,
    control: &mut C,
    last_observed_at: &mut Timestamp,
    units: u64,
) -> (result: Result<(), FixThinError>)
    requires
        seen_at::<C>(*options, *old(last_observed_at)),
    ensures
        seen_at::<C>(*options, *final(last_observed_at)),
        match result {
            Ok(()) => cleared::<W, C>(*options, units),
            Err(error) => interrupted::<W, C>(*options, units, error),
        },
        work_kept(
            old(work).allowance(),
            final(work).allowance(),
            result is Err && result->Err_0 == FixThinError::WorkBudget,
            units as int,
        ),
{
    let observation = control.observe();
    accept_observation(options, observation, last_observed_at)?;
    if !work.charge(units) {
        return Err(FixThinError::WorkBudget);
    }
    Ok(())
}

/// Accept one observation: time never goes back, and the phase is neither cancelled nor over.
pub fn accept_observation(
    options: &FixThinOptions,
    observation: FixThinObservation,
    last_observed_at: &mut Timestamp,
) -> (result: Result<(), FixThinError>)
    ensures
        result == if observation.observed_at.unix_nanos < old(last_observed_at).unix_nanos {
            Err::<(), FixThinError>(FixThinError::Deadline)
        } else if observation.cancelled {
            Err(FixThinError::Cancelled)
        } else if observation.observed_at.unix_nanos < options.started_at.unix_nanos
            || observation.observed_at.unix_nanos > options.deadline.unix_nanos {
            Err(FixThinError::Deadline)
        } else {
            Ok(())
        },
        *final(last_observed_at) == if observation.observed_at.unix_nanos < old(last_observed_at).unix_nanos {
            *old(last_observed_at)
        } else {
            observation.observed_at
        },
{
    if observation.observed_at.unix_nanos < last_observed_at.unix_nanos {
        return Err(FixThinError::Deadline);
    }
    *last_observed_at = observation.observed_at;
    if observation.cancelled {
        return Err(FixThinError::Cancelled);
    }
    if observation.observed_at.unix_nanos < options.started_at.unix_nanos
        || observation.observed_at.unix_nanos > options.deadline.unix_nanos {
        return Err(FixThinError::Deadline);
    }
    Ok(())
}

/// The most bytes that compressing `input` bytes may take.
pub open spec fn upper_bound_of(input: int) -> int {
    input + (input + 16_382) / 16_383 * 5 + 6
}

/// Return the most bytes that compressing `input` bytes may take.
pub fn zlib_upper_bound(input: u64) -> (result: Result<u64, FixThinError>)
    ensures
        result == if input + 16_382 > u64::MAX || upper_bound_of(input as int) > u64::MAX {
            Err::<u64, FixThinError>(FixThinError::Limit)
        } else {
            Ok(upper_bound_of(input as int) as u64)
        },
{
    if input > u64::MAX - 16_382 {
        return Err(FixThinError::Limit);
    }
    let blocks: u64 = (input + 16_382) / 16_383 * 5;
    match input.checked_add(blocks) {
        Some(sum) => match sum.checked_add(6) {
            Some(total) => Ok(total),
            None => Err(FixThinError::Limit),
        },
        None => Err(FixThinError::Limit),
    }
}

/// The position after a span.
pub fn span_end(span: PushPackByteSpan) -> (result: Result<u64, FixThinError>)
    ensures
        result == if span.end() > u64::MAX {
            Err::<u64, FixThinError>(FixThinError::InvalidBinding)
        } else {
            Ok(span.end() as u64)
        },
{
    match span.offset.checked_add(span.length) {
        Some(end) => Ok(end),
        None => Err(FixThinError::InvalidBinding),
    }
}

/// At most `maximum` of the bytes that remain.
pub fn bounded_length(remaining: u64, maximum: usize) -> (result: Result<usize, FixThinError>)
    ensures
        result == Ok::<usize, FixThinError>(
            if remaining < maximum {
                remaining as usize
            } else {
                maximum
            },
        ),
{
    if remaining < maximum as u64 {
        Ok(remaining as usize)
    } else {
        Ok(maximum)
    }
}

/// The thin-pack name for a validation failure.
pub open spec fn mapped_error(error: PushPackValidationError) -> FixThinError {
    match error {
        PushPackValidationError::Cancelled => FixThinError::Cancelled,
        PushPackValidationError::Deadline => FixThinError::Deadline,
        PushPackValidationError::WorkBudget => FixThinError::WorkBudget,
        PushPackValidationError::Quarantine => FixThinError::Quarantine,
        other => FixThinError::Validation(other),
    }
}

/// Map a validation failure.
pub fn map_validation_error(error: PushPackValidationError) -> (mapped: FixThinError)
    ensures
        mapped == mapped_error(error),
{
    match error {
        PushPackValidationError::Cancelled => FixThinError::Cancelled,
        PushPackValidationError::Deadline => FixThinError::Deadline,
        PushPackValidationError::WorkBudget => FixThinError::WorkBudget,
        PushPackValidationError::Quarantine => FixThinError::Quarantine,
        other => FixThinError::Validation(other),
    }
}

/// The twelve header bytes with another entry count.
pub open spec fn recounted_header(source: Seq<u8>, count: u32) -> Seq<u8> {
    source.subrange(0, 8) + be_bytes(count as int, 4)
}

/// The bytes are a header of PACK version 2 or 3 announcing `count` entries.
pub open spec fn header_announces(source: Seq<u8>, count: int) -> bool {
    &&& source.len() == 12
    &&& crate::push_pack_validation::announces(source, count)
}

/// Replace the entry count of a PACK header.
pub fn rewrite_pack_header(source: &[u8], source_count: usize, output_count: u32) -> (result: Result<
    Vec<u8>,
    FixThinError,
>)
    ensures
        match result {
            Ok(header) => header_announces(source@, source_count as int) && header@
                == recounted_header(source@, output_count),
            Err(error) => error == FixThinError::InvalidBinding && !header_announces(
                source@,
                source_count as int,
            ),
        },
{
    if source.len() != 12 {
        return Err(FixThinError::InvalidBinding);
    }
    let version: u128 = read_be(source, 4, 8);
    let count: u128 = read_be(source, 8, 12);
    proof {
        assert(source@.subrange(0, 4) =~= seq![source@[0], source@[1], source@[2], source@[3]]);
        let magic = seq![0x50u8, 0x41u8, 0x43u8, 0x4bu8];
        assert(source@.subrange(0, 4) == magic <==> source@[0] == 0x50 && source@[1] == 0x41
            && source@[2] == 0x43 && source@[3] == 0x4b) by {
            if source@.subrange(0, 4) == magic {
                assert(source@.subrange(0, 4)[0] == magic[0]);
                assert(source@.subrange(0, 4)[1] == magic[1]);
                assert(source@.subrange(0, 4)[2] == magic[2]);
                assert(source@.subrange(0, 4)[3] == magic[3]);
            }
        }
    }
    if source[0] != 0x50 || source[1] != 0x41 || source[2] != 0x43 || source[3] != 0x4b || (version
        != 2 && version != 3) || count != source_count as u128 {
        return Err(FixThinError::InvalidBinding);
    }
    let mut header: Vec<u8> = copy_range(source, 0, 8);
    crate::bytes::push_be_u32(&mut header, output_count);
    Ok(header)
}

/// Appends a direct entry header.
pub fn encode_entry_header(kind: ObjectKind, size: u64) -> (header: Vec<u8>)
    ensures
        header@ == entry_header(kind.code(), size as nat),
{
    let mut header: Vec<u8> = Vec::new();
    push_entry_header(&mut header, kind.pack_type_code(), size);
    assert(header@ =~= entry_header(kind.code(), size as nat));
    header
}

/// The kind's code inside a fingerprint.
pub open spec fn fingerprint_code(kind: ObjectKind) -> u8 {
    match kind {
        ObjectKind::Blob => 1,
        ObjectKind::Tree => 2,
        ObjectKind::Commit => 3,
        ObjectKind::Tag => 4,
    }
}

fn object_kind_code(kind: ObjectKind) -> (code: u8)
    ensures
        code == fingerprint_code(kind),
{
    match kind {
        ObjectKind::Blob => 1,
        ObjectKind::Tree => 2,
        ObjectKind::Commit => 3,
        ObjectKind::Tag => 4,
    }
}

/// A length-prefixed field.
pub open spec fn framed(bytes: Seq<u8>) -> Seq<u8> {
    be_bytes(bytes.len() as int, 8) + bytes
}

/// Appends a length-prefixed field.
fn push_field(out: &mut Vec<u8>, bytes: &[u8])
    ensures
        final(out)@ == old(out)@ + framed(bytes@),
{
    push_be_u64(out, bytes.len() as u64);
    append_bytes(out, bytes);
    assert(out@ =~= old(out)@ + framed(bytes@));
}

/// The domain separator of a plan fingerprint.
pub open spec fn plan_domain() -> Seq<u8> {
    seq![
        0x67u8, 0x72u8, 0x69u8, 0x74u8, 0x2du8, 0x66u8, 0x69u8, 0x78u8, 0x2du8, 0x74u8, 0x68u8,
        0x69u8, 0x6eu8, 0x2du8, 0x70u8, 0x6cu8, 0x61u8, 0x6eu8, 0x2du8, 0x76u8, 0x31u8,
    ]
}

/// The bytes that one base contributes to a fingerprint.
pub open spec fn base_bytes(base: FixThinBase) -> Seq<u8> {
    (framed(base.oid@).push(fingerprint_code(base.kind)) + be_bytes(base.payload_bytes as int, 8))
        + be_bytes(base.authorization_version as int, 8)
}

/// The bytes that all bases contribute to a fingerprint.
pub open spec fn bases_bytes(bases: Seq<FixThinBase>) -> Seq<u8>
    decreases bases.len(),
{
    if bases.len() == 0 {
        Seq::empty()
    } else {
        bases_bytes(bases.drop_last()) + base_bytes(bases.last())
    }
}

/// Everything that a plan fingerprint covers.
pub open spec fn plan_bytes(
    tenant: Seq<char>,
    repository: Seq<char>,
    source: QuarantineId,
    generation: u64,
    pack_checksum: ObjectId,
    index_checksum: ObjectId,
    bases: Seq<FixThinBase>,
    added_base_bytes: u64,
    work_units: u64,
    output_upper_bound: u64,
) -> Seq<u8> {
    framed(plan_domain()) + framed(vstd::utf8::encode_utf8(tenant)) + framed(
        vstd::utf8::encode_utf8(repository),
    ) + framed(source.spec_bytes()) + be_bytes(generation as int, 8) + framed(pack_checksum@)
        + framed(index_checksum@) + be_bytes(bases.len() as int, 8) + bases_bytes(bases) + be_bytes(
        added_base_bytes as int,
        8,
    ) + be_bytes(work_units as int, 8) + be_bytes(output_upper_bound as int, 8)
}

/// Compute a plan fingerprint.
fn plan_fingerprint(
    tenant: &TenantId,
    repository: &RepositoryId,
    source: &QuarantineSnapshot,
    pack_checksum: ObjectId,
    index_checksum: ObjectId,
    bases: &Vec<FixThinBase>,
    added_base_bytes: u64,
    work_units: u64,
    output_upper_bound: u64,
) -> (fingerprint: ObjectId)
    ensures
        fingerprint == hashed_id(
            pack_checksum.spec_algo(),
            plan_bytes(
                tenant@,
                repository@,
                source.id,
                source.generation,
                pack_checksum,
                index_checksum,
                bases@,
                added_base_bytes,
                work_units,
                output_upper_bound,
            ),
        ),
{
    let domain: Vec<u8> = vec![
        0x67u8, 0x72u8, 0x69u8, 0x74u8, 0x2du8, 0x66u8, 0x69u8, 0x78u8, 0x2du8, 0x74u8, 0x68u8,
        0x69u8, 0x6eu8, 0x2du8, 0x70u8, 0x6cu8, 0x61u8, 0x6eu8, 0x2du8, 0x76u8, 0x31u8,
    ];
    assert(domain@ =~= plan_domain());
    let mut out: Vec<u8> = Vec::new();
    push_field(&mut out, domain.as_slice());
    push_field(&mut out, tenant.value.as_str().as_bytes());
    push_field(&mut out, repository.value.as_str().as_bytes());
    let id: Vec<u8> = source.id.to_bytes();
    push_field(&mut out, id.as_slice());
    push_be_u64(&mut out, source.generation);
    let pack: Vec<u8> = pack_checksum.to_bytes();
    push_field(&mut out, pack.as_slice());
    let index: Vec<u8> = index_checksum.to_bytes();
    push_field(&mut out, index.as_slice());
    push_be_u64(&mut out, bases.len() as u64);
    let ghost front = out@;
    let mut at: usize = 0;
    assert(front + bases_bytes(bases@.take(0)) =~= front);
    while at < bases.len()
        invariant
            at <= bases@.len(),
            out@ == front + bases_bytes(bases@.take(at as int)),
        decreases bases.len() - at,
    {
        let ghost before = out@;
        let base = bases[at];
        let oid: Vec<u8> = base.oid.to_bytes();
        push_field(&mut out, oid.as_slice());
        out.push(object_kind_code(base.kind));
        push_be_u64(&mut out, base.payload_bytes);
        push_be_u64(&mut out, base.authorization_version);
        proof {
            let next = bases@.take(at + 1);
            assert(next.drop_last() =~= bases@.take(at as int));
            assert(out@ =~= before + base_bytes(base));
            assert(out@ =~= front + bases_bytes(next));
        }
        at = at + 1;
    }
    assert(bases@.take(at as int) =~= bases@);
    push_be_u64(&mut out, added_base_bytes);
    push_be_u64(&mut out, work_units);
    push_be_u64(&mut out, output_upper_bound);
    assert(out@ =~= plan_bytes(
        tenant@,
        repository@,
        source.id,
        source.generation,
        pack_checksum,
        index_checksum,
        bases@,
        added_base_bytes,
        work_units,
        output_upper_bound,
    ));
    crate::digest::hash_bytes(pack_checksum.algo(), out.as_slice())
}

/// The validation evidence and the source quarantine describe one sealed PACK.
pub open spec fn source_bound(
    validated: ValidatedPushPack,
    source: QuarantineSnapshot,
    manifest: QuarantineManifest,
) -> bool {
    let count = validated.index@.len();
    &&& source.manifest == Some(manifest)
    &&& count <= u32::MAX
    &&& source.state == QuarantineState::Validated
    &&& source.id == validated.fence.id
    &&& source.generation == validated.fence.generation
    &&& source.bytes == manifest.pack_bytes
    &&& manifest.object_count == count
    &&& validated.attestation.object_count == count
    &&& validated.attestation.validation_complete
    &&& manifest.pack_checksum == Some(validated.attestation.pack_checksum)
    &&& manifest.index_checksum == Some(validated.attestation.index_checksum)
    &&& manifest.self_contained == validated.attestation.self_contained
    &&& validated.summary.objects == count
}

/// Check that validation evidence and source quarantine agree, and return the manifest.
pub fn validate_source(validated: &ValidatedPushPack, source: &QuarantineSnapshot) -> (result: Result<
    QuarantineManifest,
    FixThinError,
>)
    ensures
        match result {
            Ok(manifest) => source_bound(*validated, *source, manifest),
            Err(error) => error == FixThinError::InvalidBinding && forall|manifest: QuarantineManifest|
                !#[trigger] source_bound(*validated, *source, manifest),
        },
{
    let manifest = match source.manifest {
        Some(manifest) => manifest,
        None => {
            return Err(FixThinError::InvalidBinding);
        },
    };
    if validated.index.len() > u32::MAX as usize {
        return Err(FixThinError::InvalidBinding);
    }
    let count: u32 = validated.index.len() as u32;
    if source.state != QuarantineState::Validated || source.id != validated.fence.id
        || source.generation != validated.fence.generation || source.bytes != manifest.pack_bytes
        || manifest.object_count != count || validated.attestation.object_count != count
        || !validated.attestation.validation_complete || manifest.pack_checksum != Some(
        validated.attestation.pack_checksum,
    ) || manifest.index_checksum != Some(validated.attestation.index_checksum)
        || manifest.self_contained != validated.attestation.self_contained
        || validated.summary.objects != count as u64 {
        return Err(FixThinError::InvalidBinding);
    }
    Ok(manifest)
}

/// The base that a row needs from outside, if it needs one.
pub open spec fn outside_base(row: PushPackIndexRow) -> Option<ObjectId> {
    match row.representation {
        PushPackEntryKind::RefDelta { base_oid, external } => if external {
            Some(base_oid)
        } else {
            None
        },
        _ => None,
    }
}

/// Some of the rows needs `oid` from outside.
pub open spec fn needs_base(rows: Seq<PushPackIndexRow>, oid: ObjectId) -> bool {
    exists|i: int| 0 <= i < rows.len() && outside_base(#[trigger] rows[i]) == Some(oid)
}

/// Identities strictly increase.
pub open spec fn ids_sorted(oids: Seq<ObjectId>) -> bool {
    forall|i: int, j: int|
        #![trigger oids[i], oids[j]]
        0 <= i < j < oids.len() ==> oids[i].spec_before(oids[j])
}

/// Exactly the outside bases of the rows, in identity order.
pub open spec fn outside_bases_of(rows: Seq<PushPackIndexRow>, oids: Seq<ObjectId>) -> bool {
    &&& ids_sorted(oids)
    &&& forall|oid: ObjectId| #[trigger] oids.contains(oid) <==> needs_base(rows, oid)
}

/// Collect the distinct outside bases of an index in identity order.
///
/// More than `maximum` of them are refused, and so is an index that needs none.
pub fn required_bases(rows: &Vec<PushPackIndexRow>, maximum: usize) -> (result: Result<
    Vec<ObjectId>,
    FixThinError,
>)
    ensures
        match result {
            Ok(oids) => outside_bases_of(rows@, oids@) && 0 < oids@.len() <= maximum,
            Err(error) => {
                ||| error == FixThinError::Limit && forall|oids: Seq<ObjectId>| #[trigger]
                    outside_bases_of(rows@, oids) ==> oids.len() > maximum
                ||| error == FixThinError::InvalidBinding && forall|oid: ObjectId|
                    !#[trigger] needs_base(rows@, oid)
            },
        },
{
    let mut found = OidMap::new();
    let mut at: usize = 0;
    while at < rows.len()
        invariant
            at <= rows@.len(),
            forall|oid: ObjectId| #[trigger]
                found@.dom().contains(oid) <==> needs_base(rows@.take(at as int), oid),
            found@.dom().finite(),
            found@.dom().len() <= maximum,
        decreases rows.len() - at,
    {
        let row = rows[at];
        let ghost before = rows@.take(at as int);
        let ghost after = rows@.take(at + 1);
        let needed: Option<ObjectId> = match row.representation {
            PushPackEntryKind::RefDelta { base_oid, external } => {
                if external {
                    Some(base_oid)
                } else {
                    None
                }
            },
            _ => None,
        };
        if let Some(base_oid) = needed {
            let _stored = found.insert_new(base_oid, 0);
        }
        proof {
            assert forall|oid: ObjectId| #[trigger] found@.dom().contains(oid) <==> needs_base(
                after,
                oid,
            ) by {
                if needs_base(before, oid) {
                    let i = choose|i: int|
                        0 <= i < before.len() && outside_base(#[trigger] before[i]) == Some(oid);
                    assert(outside_base(after[i]) == Some(oid));
                }
                if needs_base(after, oid) {
                    let i = choose|i: int|
                        0 <= i < after.len() && outside_base(#[trigger] after[i]) == Some(oid);
                    if i < at {
                        assert(outside_base(before[i]) == Some(oid));
                    }
                }
                if needed == Some(oid) {
                    assert(outside_base(after[at as int]) == Some(oid));
                }
            }
        }
        if found.len() > maximum {
            proof {
                assert forall|oids: Seq<ObjectId>| #[trigger]
                    outside_bases_of(rows@, oids) implies oids.len() > maximum by {
                    lemma_prefix_bases(rows@, at + 1, found@.dom(), oids);
                }
            }
            return Err(FixThinError::Limit);
        }
        at = at + 1;
    }
    assert(rows@.take(at as int) =~= rows@);
    let oids: Vec<ObjectId> = found.keys();
    if oids.len() == 0 {
        proof {
            assert forall|oid: ObjectId| !#[trigger] needs_base(rows@, oid) by {
                if needs_base(rows@, oid) {
                    assert(found@.dom().contains(oid));
                    assert(oids@.to_set().contains(oid));
                }
            }
        }
        return Err(FixThinError::InvalidBinding);
    }
    proof {
        assert forall|oid: ObjectId| #[trigger] oids@.contains(oid) <==> needs_base(rows@, oid) by {
            assert(oids@.to_set().contains(oid) <==> found@.dom().contains(oid));
        }
        oids@.unique_seq_to_set();
    }
    Ok(oids)
}

/// The bases of a prefix are no more than those of all rows.
proof fn lemma_prefix_bases(
    rows: Seq<PushPackIndexRow>,
    count: int,
    found: Set<ObjectId>,
    oids: Seq<ObjectId>,
)
    requires
        0 <= count <= rows.len(),
        found.finite(),
        forall|oid: ObjectId| #[trigger]
            found.contains(oid) <==> needs_base(rows.take(count), oid),
        outside_bases_of(rows, oids),
    ensures
        found.len() <= oids.len(),
{
    let all = oids.to_set();
    assert(found.subset_of(all)) by {
        assert forall|oid: ObjectId| found.contains(oid) implies all.contains(oid) by {
            let i = choose|i: int|
                0 <= i < rows.take(count).len() && outside_base(#[trigger] rows.take(count)[i])
                    == Some(oid);
            assert(outside_base(rows[i]) == Some(oid));
            assert(oids.contains(oid));
        }
    }
    vstd::seq_lib::seq_to_set_is_finite(oids);
    vstd::set_lib::lemma_len_subset(found, all);
    oids.lemma_cardinality_of_set();
}

/// The accounted working set of planning, in bytes.
pub open spec fn working_set(objects: int, bases: int) -> int {
    let oid = vstd::layout::size_of::<ObjectId>() as int;
    let hashed = oid + 128;
    objects * hashed + bases * (hashed * 3 + oid * 2 + vstd::layout::size_of::<
        AuthorizedThinBase,
    >() * 2 + vstd::layout::size_of::<FixThinBase>())
}

/// Check that planning fits its memory bound.
pub fn validate_prepared_working_set(
    original_objects: usize,
    distinct_bases: usize,
    maximum_bytes: u64,
) -> (result: Result<(), FixThinError>)
    ensures
        result == if working_set(original_objects as int, distinct_bases as int) <= maximum_bytes {
            Ok::<(), FixThinError>(())
        } else {
            Err(FixThinError::Limit)
        },
{
    let oid: u128 = std::mem::size_of::<ObjectId>() as u128;
    let provider_row: u128 = std::mem::size_of::<AuthorizedThinBase>() as u128;
    let plan_row: u128 = std::mem::size_of::<FixThinBase>() as u128;
    let hashed: u128 = oid + 128;
    let per_base: u128 = hashed * 3 + oid * 2 + provider_row * 2 + plan_row;
    let objects: u128 = original_objects as u128;
    let bases: u128 = distinct_bases as u128;
    proof {
        assert(objects * hashed >= 0) by (nonlinear_arith);
        assert(bases * per_base >= 0) by (nonlinear_arith);
        assert(working_set(original_objects as int, distinct_bases as int) == objects * hashed
            + bases * per_base);
    }
    let first: u128 = match objects.checked_mul(hashed) {
        Some(product) => product,
        None => {
            return Err(FixThinError::Limit);
        },
    };
    let second: u128 = match bases.checked_mul(per_base) {
        Some(product) => product,
        None => {
            return Err(FixThinError::Limit);
        },
    };
    match first.checked_add(second) {
        Some(total) => {
            if total <= maximum_bytes as u128 {
                Ok(())
            } else {
                Err(FixThinError::Limit)
            }
        },
        None => Err(FixThinError::Limit),
    }
}

/// What is wrong with one described base, checked in order.
pub open spec fn described_fault(
    described: Seq<AuthorizedThinBase>,
    i: int,
    requested: Seq<ObjectId>,
    rows: Seq<PushPackIndexRow>,
    tenant: Seq<char>,
    repository: Seq<char>,
    algo: HashAlgo,
    max_object_bytes: u64,
) -> Option<FixThinError> {
    let base = described[i];
    if !requested.contains(base.oid) || (exists|j: int|
        0 <= j < i && (#[trigger] described[j]).oid == base.oid) || (exists|k: int|
        0 <= k < rows.len() && (#[trigger] rows[k]).oid == base.oid) || base.oid.spec_algo()
        != algo {
        Some(FixThinError::CorruptBase)
    } else if base.tenant@ != tenant || base.repository@ != repository || base.authorization
        != ThinBaseAuthorization::Allowed {
        Some(FixThinError::UnauthorizedBase)
    } else if base.payload_bytes > max_object_bytes || base.authorization_version == 0 {
        Some(FixThinError::Limit)
    } else {
        None
    }
}

/// The first fault among the described bases from `from` on.
pub open spec fn first_described_fault(
    described: Seq<AuthorizedThinBase>,
    from: int,
    requested: Seq<ObjectId>,
    rows: Seq<PushPackIndexRow>,
    tenant: Seq<char>,
    repository: Seq<char>,
    algo: HashAlgo,
    max_object_bytes: u64,
) -> Option<FixThinError>
    decreases described.len() - from,
{
    if from < 0 || from >= described.len() {
        None
    } else {
        match described_fault(
            described,
            from,
            requested,
            rows,
            tenant,
            repository,
            algo,
            max_object_bytes,
        ) {
            Some(error) => Some(error),
            None => first_described_fault(
                described,
                from + 1,
                requested,
                rows,
                tenant,
                repository,
                algo,
                max_object_bytes,
            ),
        }
    }
}

/// What is wrong with a description is never the work that it takes.
proof fn lemma_descriptions_take_no_work(
    described: Seq<AuthorizedThinBase>,
    from: int,
    requested: Seq<ObjectId>,
    rows: Seq<PushPackIndexRow>,
    tenant: Seq<char>,
    repository: Seq<char>,
    algo: HashAlgo,
    max_object_bytes: u64,
)
    ensures
        first_described_fault(
            described,
            from,
            requested,
            rows,
            tenant,
            repository,
            algo,
            max_object_bytes,
        ) != Some(FixThinError::WorkBudget),
    decreases described.len() - from,
{
    if 0 <= from < described.len() {
        lemma_descriptions_take_no_work(
            described,
            from + 1,
            requested,
            rows,
            tenant,
            repository,
            algo,
            max_object_bytes,
        );
    }
}

/// The base carries what a description says.
pub open spec fn base_from(base: FixThinBase, described: AuthorizedThinBase) -> bool {
    &&& base.oid == described.oid
    &&& base.kind == described.kind
    &&& base.payload_bytes == described.payload_bytes
    &&& base.authorization_version == described.authorization_version
}

/// Some description has the identity.
pub open spec fn is_described(described: Seq<AuthorizedThinBase>, oid: ObjectId) -> bool {
    exists|i: int| 0 <= i < described.len() && (#[trigger] described[i]).oid == oid
}

/// Some description gives the base.
pub open spec fn base_told(base: FixThinBase, described: Seq<AuthorizedThinBase>) -> bool {
    exists|i: int| 0 <= i < described.len() && base_from(base, #[trigger] described[i])
}

/// The bases are the requested identities in order, each as described.
pub open spec fn bases_described(
    bases: Seq<FixThinBase>,
    requested: Seq<ObjectId>,
    described: Seq<AuthorizedThinBase>,
) -> bool {
    &&& bases.len() == requested.len()
    &&& forall|k: int| 0 <= k < bases.len() ==> (#[trigger] bases[k]).oid == requested[k]
    &&& forall|k: int| 0 <= k < bases.len() ==> base_told(#[trigger] bases[k], described)
}

/// Accept described bases: each requested once, in scope, allowed and bounded, and none missing.
pub fn accept_described(
    described: &Vec<AuthorizedThinBase>,
    requested: &Vec<ObjectId>,
    rows: &Vec<PushPackIndexRow>,
    tenant: &TenantId,
    repository: &RepositoryId,
    algo: HashAlgo,
    max_object_bytes: u64,
) -> (result: Result<Vec<FixThinBase>, FixThinError>)
    requires
        ids_sorted(requested@),
    ensures
        match first_described_fault(
            described@,
            0,
            requested@,
            rows@,
            tenant@,
            repository@,
            algo,
            max_object_bytes,
        ) {
            Some(error) => result == Err::<Vec<FixThinBase>, FixThinError>(error),
            None => match result {
                Ok(bases) => {
                    &&& bases_described(bases@, requested@, described@)
                    &&& forall|k: int|
                        0 <= k < bases@.len() ==> (#[trigger] bases@[k]).payload_bytes
                            <= max_object_bytes && bases@[k].authorization_version != 0
                },
                Err(error) => error == FixThinError::MissingBase && exists|k: int|
                    0 <= k < requested@.len() && !is_described(
                        described@,
                        #[trigger] requested@[k],
                    ),
            },
        },
{
    let mut wanted = OidMap::new();
    let mut at: usize = 0;
    while at < requested.len()
        invariant
            at <= requested@.len(),
            forall|oid: ObjectId| #[trigger]
                wanted@.dom().contains(oid) <==> requested@.take(at as int).contains(oid),
        decreases requested.len() - at,
    {
        let _new = wanted.insert_new(requested[at], 0);
        proof {
            lemma_take_contains(requested@, at as int);
        }
        at = at + 1;
    }
    assert(requested@.take(at as int) =~= requested@);
    let mut present = OidMap::new();
    at = 0;
    while at < rows.len()
        invariant
            at <= rows@.len(),
            forall|oid: ObjectId| #[trigger]
                present@.dom().contains(oid) <==> exists|k: int|
                    0 <= k < at && (#[trigger] rows@[k]).oid == oid,
        decreases rows.len() - at,
    {
        let _new = present.insert_new(rows[at].oid, 0);
        proof {
            assert(rows@[at as int].oid == rows@[at as int].oid);
        }
        at = at + 1;
    }
    let mut places = OidMap::new();
    at = 0;
    while at < described.len()
        invariant
            at <= described@.len(),
            forall|oid: ObjectId| #[trigger] wanted@.dom().contains(oid) <==> requested@.contains(oid),
            forall|oid: ObjectId| #[trigger]
                present@.dom().contains(oid) <==> exists|k: int|
                    0 <= k < rows@.len() && (#[trigger] rows@[k]).oid == oid,
            forall|oid: ObjectId| #[trigger]
                places@.dom().contains(oid) <==> exists|j: int|
                    0 <= j < at && (#[trigger] described@[j]).oid == oid,
            forall|oid: ObjectId| #[trigger]
                places@.dom().contains(oid) ==> places@[oid] < at
                    && described@[places@[oid] as int].oid == oid,
            first_described_fault(
                described@,
                0,
                requested@,
                rows@,
                tenant@,
                repository@,
                algo,
                max_object_bytes,
            ) == first_described_fault(
                described@,
                at as int,
                requested@,
                rows@,
                tenant@,
                repository@,
                algo,
                max_object_bytes,
            ),
            forall|j: int|
                0 <= j < at ==> (#[trigger] described@[j]).payload_bytes <= max_object_bytes
                    && described@[j].authorization_version != 0,
        decreases described.len() - at,
    {
        let base = &described[at];
        let ghost before = places@;
        if !wanted.contains(base.oid) || present.contains(base.oid) || places.contains(base.oid)
            || base.oid.algo() != algo {
            return Err(FixThinError::CorruptBase);
        }
        if !base.tenant.same(tenant) || !base.repository.same(repository) || base.authorization
            != ThinBaseAuthorization::Allowed {
            return Err(FixThinError::UnauthorizedBase);
        }
        if base.payload_bytes > max_object_bytes || base.authorization_version == 0 {
            return Err(FixThinError::Limit);
        }
        let _new = places.insert_new(base.oid, at as u64);
        proof {
            assert(described@[at as int].oid == base.oid);
        }
        at = at + 1;
    }
    let mut bases: Vec<FixThinBase> = Vec::new();
    let total: usize = described.len();
    at = 0;
    while at < requested.len()
        invariant
            at <= requested@.len(),
            bases@.len() == at,
            total == described@.len(),
            forall|oid: ObjectId| #[trigger]
                places@.dom().contains(oid) <==> exists|j: int|
                    0 <= j < described@.len() && (#[trigger] described@[j]).oid == oid,
            forall|oid: ObjectId| #[trigger]
                places@.dom().contains(oid) ==> places@[oid] < described@.len()
                    && described@[places@[oid] as int].oid == oid,
            first_described_fault(
                described@,
                0,
                requested@,
                rows@,
                tenant@,
                repository@,
                algo,
                max_object_bytes,
            ) is None,
            forall|j: int|
                0 <= j < described@.len() ==> (#[trigger] described@[j]).payload_bytes
                    <= max_object_bytes && described@[j].authorization_version != 0,
            forall|k: int| 0 <= k < at ==> (#[trigger] bases@[k]).oid == requested@[k],
            forall|k: int| 0 <= k < at ==> base_told(#[trigger] bases@[k], described@),
            forall|k: int|
                0 <= k < at ==> (#[trigger] bases@[k]).payload_bytes <= max_object_bytes
                    && bases@[k].authorization_version != 0,
        decreases requested.len() - at,
    {
        let oid: ObjectId = requested[at];
        let place: u64 = match places.get(oid) {
            Some(place) => place,
            None => {
                assert(!is_described(described@, requested@[at as int]));
                return Err(FixThinError::MissingBase);
            },
        };
        let base = &described[place as usize];
        let ghost before = bases@;
        bases.push(
            FixThinBase {
                oid: base.oid,
                kind: base.kind,
                payload_bytes: base.payload_bytes,
                authorization_version: base.authorization_version,
            },
        );
        proof {
            assert(base_from(bases@[at as int], described@[place as int]));
            assert forall|k: int| 0 <= k < at + 1 implies base_told(
                #[trigger] bases@[k],
                described@,
            ) by {
                if k < at {
                    assert(bases@[k] == before[k]);
                }
            }
        }
        at = at + 1;
    }
    Ok(bases)
}

/// Membership in a prefix that is one longer.
proof fn lemma_take_contains(oids: Seq<ObjectId>, at: int)
    requires
        0 <= at < oids.len(),
    ensures
        forall|oid: ObjectId| #[trigger]
            oids.take(at + 1).contains(oid) <==> oids.take(at).contains(oid) || oid == oids[at],
{
    assert forall|oid: ObjectId| #[trigger] oids.take(at + 1).contains(oid) <==> oids.take(
        at,
    ).contains(oid) || oid == oids[at] by {
        if oids.take(at).contains(oid) {
            let shorter = oids.take(at);
            let i = choose|i: int| 0 <= i < shorter.len() && shorter[i] == oid;
            assert(oids.take(at + 1)[i] == oid);
        }
        if oids.take(at + 1).contains(oid) {
            let longer = oids.take(at + 1);
            let i = choose|i: int| 0 <= i < longer.len() && longer[i] == oid;
            if i < at {
                assert(oids.take(at)[i] == oid);
            }
        }
        if oid == oids[at] {
            assert(oids.take(at + 1)[at] == oid);
        }
    }
}

/// The decoded bytes of all bases.
pub open spec fn sum_payload(bases: Seq<FixThinBase>) -> int
    decreases bases.len(),
{
    if bases.len() == 0 {
        0
    } else {
        sum_payload(bases.drop_last()) + bases.last().payload_bytes
    }
}

/// The most bytes that the bases take as packed entries.
pub open spec fn sum_packed(bases: Seq<FixThinBase>) -> int
    decreases bases.len(),
{
    if bases.len() == 0 {
        0
    } else {
        sum_packed(bases.drop_last()) + 16 + upper_bound_of(bases.last().payload_bytes as int)
    }
}

/// The numbers of a plan.
#[derive(Clone, Copy, Debug, PartialEq, Eq, Structural)]
pub struct PlanSizes {
    /// Decoded bytes of all bases.
    pub added_base_bytes: u64,
    /// Planned work units.
    pub work_units: u64,
    /// Complete output byte bound.
    pub output_upper_bound: u64,
}

/// Why a plan's numbers are refused, checked in order.
pub open spec fn sizes_fault(
    bases: Seq<FixThinBase>,
    inflated_bytes: u64,
    objects: int,
    manifest: QuarantineManifest,
    options: FixThinOptions,
) -> Option<FixThinError> {
    let added = sum_payload(bases);
    let output = manifest.pack_bytes + sum_packed(bases);
    let count = objects + bases.len();
    let copied = manifest.pack_bytes - 12 - manifest.hash_algo.spec_len();
    if bases.len() * (vstd::layout::size_of::<FixThinBase>() + 128)
        > options.limits.max_prepared_memory_bytes {
        Some(FixThinError::Limit)
    } else if added > options.max_added_base_bytes || sum_packed(bases) > u64::MAX {
        Some(FixThinError::Limit)
    } else if inflated_bytes + added > options.limits.max_inflated_bytes {
        Some(FixThinError::Limit)
    } else if output > options.limits.max_pack_bytes {
        Some(FixThinError::Limit)
    } else if count > options.limits.max_objects || count > u32::MAX {
        Some(FixThinError::Limit)
    } else if copied < 0 {
        Some(FixThinError::InvalidBinding)
    } else if copied + added * 2 + count > u64::MAX {
        Some(FixThinError::Limit)
    } else {
        None
    }
}

/// Sums only grow.
proof fn lemma_sums_grow(bases: Seq<FixThinBase>, count: int)
    requires
        0 <= count <= bases.len(),
    ensures
        0 <= sum_payload(bases.take(count)) <= sum_payload(bases),
        0 <= sum_packed(bases.take(count)) <= sum_packed(bases),
    decreases bases.len(),
{
    if count == bases.len() {
        assert(bases.take(count) =~= bases);
        if count > 0 {
            lemma_sums_grow(bases.drop_last(), count - 1);
            assert(bases.drop_last().take(count - 1) =~= bases.drop_last());
        }
    } else {
        lemma_sums_grow(bases.drop_last(), count);
        assert(bases.drop_last().take(count) =~= bases.take(count));
    }
}

/// Compute a plan's numbers within every bound.
pub fn plan_sizes(
    bases: &Vec<FixThinBase>,
    inflated_bytes: u64,
    objects: usize,
    manifest: &QuarantineManifest,
    options: &FixThinOptions,
) -> (result: Result<PlanSizes, FixThinError>)
    requires
        forall|k: int|
            0 <= k < bases@.len() ==> (#[trigger] bases@[k]).payload_bytes <= 0x100_0000_0000,
    ensures
        match sizes_fault(bases@, inflated_bytes, objects as int, *manifest, *options) {
            Some(error) => result == Err::<PlanSizes, FixThinError>(error),
            None => result == Ok::<PlanSizes, FixThinError>(
                PlanSizes {
                    added_base_bytes: sum_payload(bases@) as u64,
                    work_units: (manifest.pack_bytes - 12 - manifest.hash_algo.spec_len()
                        + sum_payload(bases@) * 2 + objects + bases@.len()) as u64,
                    output_upper_bound: (manifest.pack_bytes + sum_packed(bases@)) as u64,
                },
            ),
        },
{
    let row: u128 = std::mem::size_of::<FixThinBase>() as u128 + 128;
    let count: u128 = bases.len() as u128;
    match count.checked_mul(row) {
        Some(total) => {
            if total > options.limits.max_prepared_memory_bytes as u128 {
                return Err(FixThinError::Limit);
            }
        },
        None => {
            return Err(FixThinError::Limit);
        },
    }
    let mut added: u64 = 0;
    let mut packed: u64 = 0;
    let mut at: usize = 0;
    while at < bases.len()
        invariant
            at <= bases@.len(),
            forall|k: int|
                0 <= k < bases@.len() ==> (#[trigger] bases@[k]).payload_bytes <= 0x100_0000_0000,
            added == sum_payload(bases@.take(at as int)),
            packed == sum_packed(bases@.take(at as int)),
            added <= options.max_added_base_bytes,
            bases@.len() * (vstd::layout::size_of::<FixThinBase>() + 128)
                <= options.limits.max_prepared_memory_bytes,
        decreases bases.len() - at,
    {
        let payload: u64 = bases[at].payload_bytes;
        proof {
            let next = bases@.take(at + 1);
            assert(next.drop_last() =~= bases@.take(at as int));
            assert(next.last() == bases@[at as int]);
            lemma_sums_grow(bases@, at + 1);
        }
        match added.checked_add(payload) {
            Some(total) => {
                if total > options.max_added_base_bytes {
                    return Err(FixThinError::Limit);
                }
                added = total;
            },
            None => {
                return Err(FixThinError::Limit);
            },
        }
        let bound: u64 = zlib_upper_bound(payload)?;
        match packed.checked_add(16 + bound) {
            Some(total) => {
                packed = total;
            },
            None => {
                return Err(FixThinError::Limit);
            },
        }
        at = at + 1;
    }
    assert(bases@.take(at as int) =~= bases@);
    if inflated_bytes as u128 + added as u128 > options.limits.max_inflated_bytes as u128 {
        return Err(FixThinError::Limit);
    }
    let output: u128 = manifest.pack_bytes as u128 + packed as u128;
    if output > options.limits.max_pack_bytes as u128 {
        return Err(FixThinError::Limit);
    }
    let all: u128 = objects as u128 + count;
    if all > options.limits.max_objects as u128 || all > u32::MAX as u128 {
        return Err(FixThinError::Limit);
    }
    let framing: u64 = 12 + manifest.hash_algo.len() as u64;
    if manifest.pack_bytes < framing {
        return Err(FixThinError::InvalidBinding);
    }
    let units: u128 = (manifest.pack_bytes - framing) as u128 + added as u128 * 2 + all;
    if units > u64::MAX as u128 {
        return Err(FixThinError::Limit);
    }
    Ok(
        PlanSizes {
            added_base_bytes: added,
            work_units: units as u64,
            output_upper_bound: output as u64,
        },
    )
}

/// What a plan is made of.
pub open spec fn plan_follows(
    plan: FixThinPlan,
    validated: ValidatedPushPack,
    source: QuarantineSnapshot,
    manifest: QuarantineManifest,
    described: Seq<AuthorizedThinBase>,
    requested: Seq<ObjectId>,
    options: FixThinOptions,
) -> bool {
    let bases = plan.spec_bases();
    let checksums = (validated.attestation.pack_checksum, validated.attestation.index_checksum);
    &&& first_described_fault(
        described,
        0,
        requested,
        validated.index@,
        source.tenant@,
        source.repository@,
        manifest.hash_algo,
        options.limits.max_object_bytes,
    ) is None
    &&& bases_described(bases, requested, described)
    &&& plan.spec_tenant() == source.tenant@
    &&& plan.spec_repository() == source.repository@
    &&& plan.spec_source() == (source.id, source.generation)
    &&& plan.spec_checksums() == checksums
    &&& sizes_fault(
        bases,
        validated.summary.inflated_bytes,
        validated.index@.len() as int,
        manifest,
        options,
    ) is None
    &&& plan.spec_added_bytes() == sum_payload(bases)
    &&& plan.spec_output_bound() == manifest.pack_bytes + sum_packed(bases)
    &&& plan.spec_work_units() == manifest.pack_bytes - 12 - manifest.hash_algo.spec_len()
        + sum_payload(bases) * 2 + validated.index@.len() + bases.len()
    &&& plan.spec_fingerprint() == hashed_id(
        checksums.0.spec_algo(),
        plan_bytes(
            source.tenant@,
            source.repository@,
            source.id,
            source.generation,
            checksums.0,
            checksums.1,
            bases,
            plan.spec_added_bytes(),
            plan.spec_work_units(),
            plan.spec_output_bound(),
        ),
    )
}

/// What the provider described cannot be planned with.
pub open spec fn described_refused(
    validated: ValidatedPushPack,
    source: QuarantineSnapshot,
    manifest: QuarantineManifest,
    described: Seq<AuthorizedThinBase>,
    requested: Seq<ObjectId>,
    options: FixThinOptions,
    error: FixThinError,
) -> bool {
    ||| first_described_fault(
        described,
        0,
        requested,
        validated.index@,
        source.tenant@,
        source.repository@,
        manifest.hash_algo,
        options.limits.max_object_bytes,
    ) == Some(error)
    ||| error == FixThinError::MissingBase && exists|k: int|
        0 <= k < requested.len() && !is_described(described, #[trigger] requested[k])
    ||| exists|bases: Seq<FixThinBase>|
        bases_described(bases, requested, described) && #[trigger] sizes_fault(
            bases,
            validated.summary.inflated_bytes,
            validated.index@.len() as int,
            manifest,
            options,
        ) == Some(error)
}

/// Build a plan from the provider's descriptions of the requested bases.
pub fn plan_from_described(
    validated: &ValidatedPushPack,
    source: &QuarantineSnapshot,
    manifest: &QuarantineManifest,
    described: &Vec<AuthorizedThinBase>,
    requested: &Vec<ObjectId>,
    options: &FixThinOptions,
) -> (result: Result<FixThinPlan, FixThinError>)
    requires
        ids_sorted(requested@),
        options.valid(),
    ensures
        first_described_fault(
            described@,
            0,
            requested@,
            validated.index@,
            source.tenant@,
            source.repository@,
            manifest.hash_algo,
            options.limits.max_object_bytes,
        ) matches Some(error) ==> result == Err::<FixThinPlan, FixThinError>(error),
        match result {
            Ok(plan) => plan_follows(
                plan,
                *validated,
                *source,
                *manifest,
                described@,
                requested@,
                *options,
            ),
            Err(error) => described_refused(
                *validated,
                *source,
                *manifest,
                described@,
                requested@,
                *options,
                error,
            ),
        },
{
    proof {
        crate::push_metrics::law_valid_limits_are_bounded(options.limits);
    }
    let bases: Vec<FixThinBase> = match accept_described(
        described,
        requested,
        &validated.index,
        &source.tenant,
        &source.repository,
        manifest.hash_algo,
        options.limits.max_object_bytes,
    ) {
        Ok(bases) => bases,
        Err(error) => {
            return Err(error);
        },
    };
    let sizes = match plan_sizes(
        &bases,
        validated.summary.inflated_bytes,
        validated.index.len(),
        manifest,
        options,
    ) {
        Ok(sizes) => sizes,
        Err(error) => {
            return Err(error);
        },
    };
    proof {
        lemma_sums_grow(bases@, bases@.len() as int);
        assert(bases@.take(bases@.len() as int) =~= bases@);
    }
    let fingerprint: ObjectId = plan_fingerprint(
        &source.tenant,
        &source.repository,
        source,
        validated.attestation.pack_checksum,
        validated.attestation.index_checksum,
        &bases,
        sizes.added_base_bytes,
        sizes.work_units,
        sizes.output_upper_bound,
    );
    Ok(
        FixThinPlan {
            tenant: source.tenant.clone(),
            repository: source.repository.clone(),
            source_quarantine: source.id,
            source_generation: source.generation,
            source_pack_checksum: validated.attestation.pack_checksum,
            source_index_checksum: validated.attestation.index_checksum,
            bases,
            added_base_bytes: sizes.added_base_bytes,
            work_units: sizes.work_units,
            output_upper_bound: sizes.output_upper_bound,
            fingerprint,
        },
    )
}

/// The time is that of the start or of an observation.
pub open spec fn seen_at<C: FixThinControl>(
    options: FixThinOptions,
    time: Timestamp,
) -> bool {
    time == options.started_at || exists|observation: FixThinObservation| #[trigger]
        C::observes(observation) && observation.observed_at == time
}

/// The observation lies outside the run, or before an earlier time of it.
pub open spec fn untimely<C: FixThinControl>(
    options: FixThinOptions,
    observation: FixThinObservation,
) -> bool {
    ||| observation.observed_at.unix_nanos < options.started_at.unix_nanos
    ||| observation.observed_at.unix_nanos > options.deadline.unix_nanos
    ||| exists|time: Timestamp| #[trigger]
        seen_at::<C>(options, time) && observation.observed_at.unix_nanos < time.unix_nanos
}

/// A checkpoint stopped the run from outside: its charge was refused, or its observation was
/// cancelled or untimely.
pub open spec fn interrupted<W: FixThinWork, C: FixThinControl>(
    options: FixThinOptions,
    units: u64,
    error: FixThinError,
) -> bool {
    ||| error == FixThinError::WorkBudget && W::answers(units, false)
    ||| error == FixThinError::Cancelled
        && exists|observation: FixThinObservation| #[trigger]
        C::observes(observation) && observation.cancelled
    ||| error == FixThinError::Deadline
        && exists|observation: FixThinObservation| #[trigger]
        C::observes(observation) && untimely::<C>(options, observation)
}

/// What a checkpoint of the rewriting charges: nothing or one unit for a step, one for each byte of
/// a source range, or two for each byte of a base range.
pub open spec fn charge_within(options: FixThinOptions, units: u64) -> bool {
    ||| units <= 1
    ||| units <= options.source_chunk_bytes
    ||| units <= 2 * options.base_chunk_bytes
}

/// Some checkpoint of the rewriting stopped it.
pub open spec fn stopped<W: FixThinWork, C: FixThinControl>(
    options: FixThinOptions,
    error: FixThinError,
) -> bool {
    exists|units: u64| #[trigger]
        interrupted::<W, C>(options, units, error) && charge_within(options, units)
}

/// A range of a base was asked for under its repository and authorization version, and answered
/// so.
pub open spec fn range_read<P: AuthorizedThinBaseProvider>(
    tenant: Seq<char>,
    repository: Seq<char>,
    base: FixThinBase,
    offset: u64,
    length: usize,
    answer: Result<Vec<u8>, ThinBaseSourceError>,
) -> bool {
    P::reads_base(
        tenant,
        repository,
        base.oid,
        base.authorization_version,
        offset,
        length,
        answer,
    )
}

/// A checkpoint let the run go on: it was observed in time and not cancelled, and the units were
/// granted.
pub open spec fn cleared<W: FixThinWork, C: FixThinControl>(
    options: FixThinOptions,
    units: u64,
) -> bool {
    &&& W::answers(units, true)
    &&& exists|observation: FixThinObservation| #[trigger]
        C::observes(observation) && !observation.cancelled && options.started_at.unix_nanos
            <= observation.observed_at.unix_nanos <= options.deadline.unix_nanos
}

/// The next range of a base was granted, asked for, and answered with these bytes.
pub open spec fn piece_read<P: AuthorizedThinBaseProvider, W: FixThinWork, C: FixThinControl>(
    tenant: Seq<char>,
    repository: Seq<char>,
    base: FixThinBase,
    options: FixThinOptions,
    offset: int,
    piece: Vec<u8>,
) -> bool {
    &&& 0 <= offset
    &&& offset + piece@.len() <= base.payload_bytes
    &&& 0 < piece@.len() <= options.base_chunk_bytes
    &&& range_read::<P>(
        tenant,
        repository,
        base,
        offset as u64,
        piece@.len() as usize,
        Ok(piece),
    )
    &&& cleared::<W, C>(options, (2 * piece@.len()) as u64)
}

/// The bytes are what the provider answered, range after range, for a base.
pub open spec fn pieces_read<P: AuthorizedThinBaseProvider, W: FixThinWork, C: FixThinControl>(
    tenant: Seq<char>,
    repository: Seq<char>,
    base: FixThinBase,
    options: FixThinOptions,
    payload: Seq<u8>,
) -> bool
    decreases payload.len(),
{
    payload.len() == 0 || exists|at: int, piece: Vec<u8>|
        0 <= at < payload.len() && payload.skip(at) == piece@ && pieces_read::<P, W, C>(
            tenant,
            repository,
            base,
            options,
            payload.take(at),
        ) && #[trigger] piece_read::<P, W, C>(tenant, repository, base, options, at, piece)
}

/// The provider answered all ranges of a base, and they make up the object with its identity.
#[verifier::opaque]
pub open spec fn base_read<P: AuthorizedThinBaseProvider, W: FixThinWork, C: FixThinControl>(
    tenant: Seq<char>,
    repository: Seq<char>,
    base: FixThinBase,
    options: FixThinOptions,
) -> bool {
    exists|payload: Seq<u8>| #[trigger]
        pieces_read::<P, W, C>(tenant, repository, base, options, payload) && payload.len()
            == base.payload_bytes && canonical_id(base.oid.spec_algo(), base.kind, payload)
            == base.oid
}

/// Every planned base was read in the plan's repository at its authorization version.
pub open spec fn bases_read<P: AuthorizedThinBaseProvider, W: FixThinWork, C: FixThinControl>(
    plan: FixThinPlan,
    options: FixThinOptions,
) -> bool {
    forall|k: int|
        0 <= k < plan.spec_bases().len() ==> #[trigger] base_read::<P, W, C>(
            plan.spec_tenant(),
            plan.spec_repository(),
            plan.spec_bases()[k],
            options,
        )
}

/// Reading one base failed: a range was refused or answered with another length, or the ranges
/// make up another object.
#[verifier::opaque]
pub open spec fn reading_base_failed<
    P: AuthorizedThinBaseProvider,
    W: FixThinWork,
    C: FixThinControl,
>(
    tenant: Seq<char>,
    repository: Seq<char>,
    base: FixThinBase,
    options: FixThinOptions,
    error: FixThinError,
) -> bool {
    ||| error == FixThinError::MissingBase && exists|offset: u64, length: usize| #[trigger]
        range_read::<P>(tenant, repository, base, offset, length, Err(ThinBaseSourceError))
    ||| error == FixThinError::CorruptBase && exists|offset: u64, length: usize, piece: Vec<u8>|
        #[trigger]
        range_read::<P>(tenant, repository, base, offset, length, Ok(piece)) && piece@.len()
            != length
    ||| error == FixThinError::CorruptBase && exists|payload: Seq<u8>| #[trigger]
        pieces_read::<P, W, C>(tenant, repository, base, options, payload) && payload.len()
            == base.payload_bytes && canonical_id(base.oid.spec_algo(), base.kind, payload)
            != base.oid
}

/// Reading some planned base failed, or the bases take too many reads.
pub open spec fn bases_failed<P: AuthorizedThinBaseProvider, W: FixThinWork, C: FixThinControl>(
    plan: FixThinPlan,
    options: FixThinOptions,
    error: FixThinError,
) -> bool {
    ||| exists|k: int|
        0 <= k < plan.spec_bases().len() && #[trigger] reading_base_failed::<P, W, C>(
            plan.spec_tenant(),
            plan.spec_repository(),
            plan.spec_bases()[k],
            options,
            error,
        )
    ||| error == FixThinError::Limit && base_ranges(
        plan.spec_bases(),
        options.base_chunk_bytes as int,
    ) > options.limits.max_external_operations
}

/// Copying the source entries failed: a range cannot be read, or they take too many reads.
pub open spec fn copying_failed<S: PackQuarantine>(
    fence: QuarantineFence,
    trailer_start: int,
    options: FixThinOptions,
    error: FixThinError,
) -> bool {
    ||| error == FixThinError::Quarantine && unreadable::<S>(fence)
    ||| error == FixThinError::Limit && 1 + chunk_count(
        trailer_start - 12,
        options.source_chunk_bytes as int,
    ) > options.limits.max_range_operations
}

/// The target took all the appends allowed, or would be longer than allowed.
pub open spec fn target_full(options: FixThinOptions, appends: int, reach: int) -> bool {
    ||| appends >= options.limits.max_object_operations
    ||| reach > options.limits.max_pack_bytes
}

/// Some call of a compressor with this much room fails, ends before it is told to, or makes no
/// progress.
pub open spec fn compressor_breaks(room: int) -> bool {
    exists|encoder: flate2::Compress, input: Seq<u8>, finish: bool|
        match #[trigger] deflate_outcome(encoder, input, room as nat, finish) {
            None => true,
            Some((ZlibStatus::Ended, _, _)) => !finish,
            Some((_, consumed, produced)) => consumed == 0 && produced == 0,
        }
}

/// Some call of a compressor with this much room gives this many bytes.
pub open spec fn squeezed(room: int, produced: int) -> bool {
    exists|encoder: flate2::Compress, input: Seq<u8>, finish: bool|
        match #[trigger] deflate_outcome(encoder, input, room as nat, finish) {
            Some((_, _, made)) => made == produced,
            None => false,
        }
}

/// What writing to the target up to the length `reach` reports after so many appends: a stop, a
/// refused append, a full target or a compressor that breaks off.
pub open spec fn writing_explained<T: PackQuarantine, W: FixThinWork, C: FixThinControl>(
    fence: QuarantineFence,
    options: FixThinOptions,
    appends: int,
    reach: int,
    error: FixThinError,
) -> bool {
    match error {
        FixThinError::Deadline | FixThinError::Cancelled | FixThinError::WorkBudget => stopped::<
            W,
            C,
        >(options, error),
        FixThinError::Quarantine => unwritable::<T>(fence),
        FixThinError::Limit => target_full(options, appends, reach),
        FixThinError::Compression => compressor_breaks(options.output_chunk_bytes as int),
        _ => false,
    }
}

/// What writing compressed bytes behind `length` bytes of the target reports.
pub open spec fn squeezing_explained<T: PackQuarantine, W: FixThinWork, C: FixThinControl>(
    fence: QuarantineFence,
    options: FixThinOptions,
    appends: int,
    length: int,
    error: FixThinError,
) -> bool {
    ||| error != FixThinError::Limit && writing_explained::<T, W, C>(
        fence,
        options,
        appends,
        length,
        error,
    )
    ||| error == FixThinError::Limit && exists|produced: int| #[trigger]
        squeezed(options.output_chunk_bytes as int, produced) && target_full(
            options,
            appends,
            length + produced,
        )
}

/// What writing this base behind `length` bytes of the target reports.
pub open spec fn packing_explained<T: PackQuarantine, W: FixThinWork, C: FixThinControl>(
    fence: QuarantineFence,
    base: FixThinBase,
    options: FixThinOptions,
    appends: int,
    length: int,
    error: FixThinError,
) -> bool {
    ||| writing_explained::<T, W, C>(
        fence,
        options,
        appends,
        length + entry_header(base.kind.code(), base.payload_bytes as nat).len(),
        error,
    )
    ||| squeezing_explained::<T, W, C>(fence, options, appends, length, error)
}

/// What writing the planned bases reports: what writing one of them does, or reading them.
pub open spec fn bases_explained<
    T: PackQuarantine,
    P: AuthorizedThinBaseProvider,
    W: FixThinWork,
    C: FixThinControl,
>(
    fence: QuarantineFence,
    plan: FixThinPlan,
    options: FixThinOptions,
    appends: int,
    length: int,
    error: FixThinError,
) -> bool {
    ||| exists|k: int|
        0 <= k < plan.spec_bases().len() && #[trigger] packing_explained::<T, W, C>(
            fence,
            plan.spec_bases()[k],
            options,
            appends,
            length,
            error,
        )
    ||| bases_failed::<P, W, C>(plan, options, error)
}

/// What replacing a PACK reports: what writing, copying and reading the bases do, a source header
/// that announces another count, or an output beyond the planned bound.
pub open spec fn replacing_explained<
    S: PackQuarantine,
    T: PackQuarantine,
    P: AuthorizedThinBaseProvider,
    W: FixThinWork,
    C: FixThinControl,
>(
    source_fence: QuarantineFence,
    target_fence: QuarantineFence,
    algo: HashAlgo,
    plan: FixThinPlan,
    rows: Seq<PushPackIndexRow>,
    source: Seq<u8>,
    target: Seq<u8>,
    appends: int,
    options: FixThinOptions,
    error: FixThinError,
) -> bool {
    let body_end = rows_end(rows, rows.len() as int);
    let length = target.len() as int;
    ||| writing_explained::<T, W, C>(target_fence, options, appends, body_end, error)
    ||| copying_failed::<S>(source_fence, body_end, options, error)
    ||| bases_explained::<T, P, W, C>(target_fence, plan, options, appends, length, error)
    ||| writing_explained::<T, W, C>(
        target_fence,
        options,
        appends,
        length + algo.spec_len(),
        error,
    )
    ||| error == FixThinError::InvalidBinding && (unreadable::<S>(source_fence)
        || !header_announces(source.take(12), rows.len() as int))
    ||| error == FixThinError::Limit && target.len() > plan.spec_output_bound()
}

/// Planning fails for the working set of some list of bases.
pub open spec fn working_set_exceeds(rows: Seq<PushPackIndexRow>, options: FixThinOptions) -> bool {
    exists|requested: Seq<ObjectId>| #[trigger]
        outside_bases_of(rows, requested) && working_set(
            rows.len() as int,
            requested.len() as int,
        ) > options.limits.max_prepared_memory_bytes
}

/// Planning fails for what a provider described.
pub open spec fn described_fails<P: AuthorizedThinBaseProvider>(
    provider: P,
    validated: ValidatedPushPack,
    source: QuarantineSnapshot,
    options: FixThinOptions,
    error: FixThinError,
) -> bool {
    exists|
        manifest: QuarantineManifest,
        described: Seq<AuthorizedThinBase>,
        requested: Seq<ObjectId>,
    |
        source_bound(validated, source, manifest) && outside_bases_of(validated.index@, requested)
            && provider.described(
            source.tenant,
            source.repository,
            requested,
            options.limits.max_prepared_memory_bytes,
            Some(described),
        )
            && #[trigger] described_refused(
            validated,
            source,
            manifest,
            described,
            requested,
            options,
            error,
        )
}

/// The provider described none of the bases that the entries need.
pub open spec fn undescribed<P: AuthorizedThinBaseProvider>(
    provider: P,
    validated: ValidatedPushPack,
    source: QuarantineSnapshot,
    options: FixThinOptions,
) -> bool {
    exists|requested: Seq<ObjectId>|
        outside_bases_of(validated.index@, requested) && #[trigger] provider.described(
            source.tenant,
            source.repository,
            requested,
            options.limits.max_prepared_memory_bytes,
            None,
        )
}

/// A plan made from what the provider described of exactly the bases that the entries need.
pub open spec fn planned_from<P: AuthorizedThinBaseProvider>(
    provider: P,
    plan: FixThinPlan,
    validated: ValidatedPushPack,
    source: QuarantineSnapshot,
    options: FixThinOptions,
) -> bool {
    exists|
        manifest: QuarantineManifest,
        described: Seq<AuthorizedThinBase>,
        requested: Seq<ObjectId>,
    |
        #[trigger] plan_follows(plan, validated, source, manifest, described, requested, options)
            && source_bound(validated, source, manifest) && !validated.attestation.self_contained
            && outside_bases_of(validated.index@, requested) && 0 < requested.len()
            <= options.max_added_bases && provider.described(
            source.tenant,
            source.repository,
            requested,
            options.limits.max_prepared_memory_bytes,
            Some(described),
        )
}

/// The base was described as allowed for the repository, at a nonzero version, within the size.
pub open spec fn base_allowed(
    base: FixThinBase,
    described: AuthorizedThinBase,
    source: QuarantineSnapshot,
    options: FixThinOptions,
) -> bool {
    &&& base_from(base, described)
    &&& described.tenant@ == source.tenant@
    &&& described.repository@ == source.repository@
    &&& described.authorization == ThinBaseAuthorization::Allowed
    &&& described.authorization_version > 0
    &&& described.payload_bytes <= options.limits.max_object_bytes
}

/// Every base has its description among these, and is allowed by it.
pub open spec fn bases_allowed(
    bases: Seq<FixThinBase>,
    described: Seq<AuthorizedThinBase>,
    source: QuarantineSnapshot,
    options: FixThinOptions,
) -> bool {
    forall|k: int|
        0 <= k < bases.len() ==> exists|i: int|
            0 <= i < described.len() && base_allowed(
                #[trigger] bases[k],
                #[trigger] described[i],
                source,
                options,
            )
}

/// Descriptions without a fault have none at any place.
proof fn lemma_no_described_fault(
    described: Seq<AuthorizedThinBase>,
    from: int,
    i: int,
    requested: Seq<ObjectId>,
    rows: Seq<PushPackIndexRow>,
    tenant: Seq<char>,
    repository: Seq<char>,
    algo: HashAlgo,
    max_object_bytes: u64,
)
    requires
        0 <= from <= i < described.len(),
        first_described_fault(
            described,
            from,
            requested,
            rows,
            tenant,
            repository,
            algo,
            max_object_bytes,
        ) is None,
    ensures
        described_fault(
            described,
            i,
            requested,
            rows,
            tenant,
            repository,
            algo,
            max_object_bytes,
        ) is None,
    decreases i - from,
{
    if from < i {
        lemma_no_described_fault(
            described,
            from + 1,
            i,
            requested,
            rows,
            tenant,
            repository,
            algo,
            max_object_bytes,
        );
    }
}

/// A plan holds exactly the outside bases that the entries need, once each in identity order and
/// none of them an object of the PACK; the provider described each as allowed for the repository
/// at a nonzero version; and their bytes add up within the bound.
pub proof fn law_planned_bases_are_authorized<P: AuthorizedThinBaseProvider>(
    provider: P,
    plan: FixThinPlan,
    validated: ValidatedPushPack,
    source: QuarantineSnapshot,
    options: FixThinOptions,
)
    requires
        planned_from(provider, plan, validated, source, options),
    ensures
        forall|i: int, j: int|
            #![trigger plan.spec_bases()[i], plan.spec_bases()[j]]
            0 <= i < j < plan.spec_bases().len() ==> plan.spec_bases()[i].oid.spec_before(
                plan.spec_bases()[j].oid,
            ),
        forall|oid: ObjectId| #[trigger]
            needs_base(validated.index@, oid) <==> exists|k: int|
                0 <= k < plan.spec_bases().len() && (#[trigger] plan.spec_bases()[k]).oid == oid,
        forall|k: int, r: int|
            #![trigger plan.spec_bases()[k], validated.index@[r]]
            0 <= k < plan.spec_bases().len() && 0 <= r < validated.index@.len()
                ==> plan.spec_bases()[k].oid != validated.index@[r].oid,
        exists|described: Seq<AuthorizedThinBase>, requested: Seq<ObjectId>|
            provider.described(
            source.tenant,
            source.repository,
            requested,
            options.limits.max_prepared_memory_bytes,
            Some(described),
        )
                && #[trigger] bases_allowed(plan.spec_bases(), described, source, options)
                && #[trigger] outside_bases_of(validated.index@, requested),
        plan.spec_added_bytes() == sum_payload(plan.spec_bases()),
        plan.spec_added_bytes() <= options.max_added_base_bytes,
{
    let (manifest, described, requested) = choose|
        manifest: QuarantineManifest,
        described: Seq<AuthorizedThinBase>,
        requested: Seq<ObjectId>,
    |
        #[trigger] plan_follows(plan, validated, source, manifest, described, requested, options)
            && source_bound(validated, source, manifest) && !validated.attestation.self_contained
            && outside_bases_of(validated.index@, requested) && 0 < requested.len()
            <= options.max_added_bases && provider.described(
            source.tenant,
            source.repository,
            requested,
            options.limits.max_prepared_memory_bytes,
            Some(described),
        );
    let bases = plan.spec_bases();
    let rows = validated.index@;
    assert forall|k: int| 0 <= k < bases.len() implies exists|i: int|
        0 <= i < described.len() && base_allowed(
            #[trigger] bases[k],
            #[trigger] described[i],
            source,
            options,
        ) by {
        let i = choose|i: int|
            0 <= i < described.len() && base_from(bases[k], #[trigger] described[i]);
        lemma_no_described_fault(
            described,
            0,
            i,
            requested,
            rows,
            source.tenant@,
            source.repository@,
            manifest.hash_algo,
            options.limits.max_object_bytes,
        );
        assert(base_allowed(bases[k], described[i], source, options));
    }
    assert forall|k: int, r: int|
        #![trigger bases[k], rows[r]]
        0 <= k < bases.len() && 0 <= r < rows.len() implies bases[k].oid != rows[r].oid by {
        let i = choose|i: int|
            0 <= i < described.len() && base_from(bases[k], #[trigger] described[i]);
        lemma_no_described_fault(
            described,
            0,
            i,
            requested,
            rows,
            source.tenant@,
            source.repository@,
            manifest.hash_algo,
            options.limits.max_object_bytes,
        );
    }
    assert forall|i: int, j: int|
        #![trigger bases[i], bases[j]]
        0 <= i < j < bases.len() implies bases[i].oid.spec_before(bases[j].oid) by {
        assert(bases[i].oid == requested[i]);
        assert(bases[j].oid == requested[j]);
    }
    assert forall|oid: ObjectId| #[trigger] needs_base(rows, oid) <==> exists|k: int|
        0 <= k < bases.len() && (#[trigger] bases[k]).oid == oid by {
        if needs_base(rows, oid) {
            assert(requested.contains(oid));
            let k = choose|k: int| 0 <= k < requested.len() && requested[k] == oid;
            assert(bases[k].oid == oid);
        }
        if exists|k: int| 0 <= k < bases.len() && (#[trigger] bases[k]).oid == oid {
            let k = choose|k: int| 0 <= k < bases.len() && (#[trigger] bases[k]).oid == oid;
            assert(requested[k] == oid);
            assert(requested.contains(oid));
        }
    }
    assert(bases_allowed(bases, described, source, options));
}

/// Why planning fails.
pub open spec fn planning_failed<
    P: AuthorizedThinBaseProvider,
    W: FixThinWork,
    C: FixThinControl,
>(
    provider: P,
    validated: ValidatedPushPack,
    source: QuarantineSnapshot,
    options: FixThinOptions,
    error: FixThinError,
) -> bool {
    if !options.valid() {
        error == FixThinError::InvalidLimits
    } else {
        ||| interrupted::<W, C>(options, 1, error)
        ||| exists|requested: Seq<ObjectId>| #[trigger]
            outside_bases_of(validated.index@, requested) && interrupted::<W, C>(
                options,
                requested.len() as u64,
                error,
            )
        ||| error == FixThinError::InvalidBinding && forall|manifest: QuarantineManifest|
            !#[trigger] source_bound(validated, source, manifest)
        ||| error == FixThinError::NotRequired && validated.attestation.self_contained
        ||| error == FixThinError::InvalidBinding && forall|oid: ObjectId|
            !#[trigger] needs_base(validated.index@, oid)
        ||| error == FixThinError::Limit && forall|oids: Seq<ObjectId>| #[trigger]
            outside_bases_of(validated.index@, oids) ==> oids.len() > options.max_added_bases
        ||| error == FixThinError::Limit && working_set_exceeds(validated.index@, options)
        ||| error == FixThinError::MissingBase && undescribed(provider, validated, source, options)
        ||| described_fails(provider, validated, source, options, error)
    }
}

/// Build a deterministic direct-base thickening plan.
///
/// Existing objects are always recompressed as direct entries, so the replacement PACK keeps no
/// dependency of theirs.
pub fn plan_fix_thin_pack<P: AuthorizedThinBaseProvider, W: FixThinWork, C: FixThinControl>(
    validated: &ValidatedPushPack,
    source: &QuarantineSnapshot,
    provider: &mut P,
    options: FixThinOptions,
    work: &mut W,
    control: &mut C,
) -> (result: Result<FixThinPlan, FixThinError>)
    ensures
        !options.valid() ==> result is Err && result->Err_0 == FixThinError::InvalidLimits,
        work_kept(
            old(work).allowance(),
            final(work).allowance(),
            result is Err && result->Err_0 == FixThinError::WorkBudget,
            2 + options.max_added_bases,
        ),
        match result {
            Ok(plan) => {
                &&& planned_from(*final(provider), plan, *validated, *source, options)
                &&& cleared::<W, C>(options, 1)
                &&& cleared::<W, C>(options, plan.spec_bases().len() as u64)
            },
            Err(error) => planning_failed::<P, W, C>(
                *final(provider),
                *validated,
                *source,
                options,
                error,
            ),
        },
{
    if let Err(error) = options.validate() {
        return Err(error);
    }
    let mut last_observed_at: Timestamp = options.started_at;
    checkpoint(&options, work, control, &mut last_observed_at, 1)?;
    let manifest = validate_source(validated, source)?;
    if validated.attestation.self_contained {
        return Err(FixThinError::NotRequired);
    }
    let requested: Vec<ObjectId> = required_bases(&validated.index, options.max_added_bases)?;
    assert(outside_bases_of(validated.index@, requested@));
    validate_prepared_working_set(
        validated.index.len(),
        requested.len(),
        options.limits.max_prepared_memory_bytes,
    )?;
    checkpoint(&options, work, control, &mut last_observed_at, requested.len() as u64)?;
    let described: Vec<AuthorizedThinBase> = match provider.describe_bases(
        &source.tenant,
        &source.repository,
        &requested,
        options.limits.max_prepared_memory_bytes,
    ) {
        Ok(described) => described,
        Err(_) => {
            assert(undescribed(*provider, *validated, *source, options));
            return Err(FixThinError::MissingBase);
        },
    };
    checkpoint(&options, work, control, &mut last_observed_at, 1)?;
    let planned = plan_from_described(
        validated,
        source,
        &manifest,
        &described,
        &requested,
        &options,
    );
    proof {
        lemma_descriptions_take_no_work(
            described@,
            0,
            requested@,
            validated.index@,
            source.tenant@,
            source.repository@,
            manifest.hash_algo,
            options.limits.max_object_bytes,
        );
        if planned is Err {
            assert(described_refused(
                *validated,
                *source,
                manifest,
                described@,
                requested@,
                options,
                planned->Err_0,
            ));
        }
    }
    planned
}

/// The target is a distinct empty quarantine of the plan's scope.
pub open spec fn target_bound(
    plan: FixThinPlan,
    source: QuarantineSnapshot,
    target: QuarantineSnapshot,
    fence: QuarantineFence,
) -> bool {
    &&& target.state == QuarantineState::Receiving
    &&& target.bytes == 0
    &&& target.manifest is None
    &&& target.tenant@ == plan.spec_tenant()
    &&& target.repository@ == plan.spec_repository()
    &&& target.tenant@ == source.tenant@
    &&& target.repository@ == source.repository@
    &&& target.id != source.id
    &&& target.id == fence.id
    &&& target.generation == fence.generation
}

/// Check the target quarantine.
pub fn validate_target(
    plan: &FixThinPlan,
    source: &QuarantineSnapshot,
    target: &QuarantineSnapshot,
    fence: QuarantineFence,
) -> (result: Result<(), FixThinError>)
    ensures
        result == if target_bound(*plan, *source, *target, fence) {
            Ok::<(), FixThinError>(())
        } else {
            Err(FixThinError::InvalidBinding)
        },
{
    if target.state != QuarantineState::Receiving || target.bytes != 0 || target.manifest.is_some()
        || !target.tenant.same(&plan.tenant) || !target.repository.same(&plan.repository)
        || !target.tenant.same(&source.tenant) || !target.repository.same(&source.repository)
        || target.id == source.id || target.id != fence.id || target.generation
        != fence.generation {
        return Err(FixThinError::InvalidBinding);
    }
    Ok(())
}

/// A base has a version and precedes the base after it.
pub open spec fn base_ordered(bases: Seq<FixThinBase>, k: int) -> bool {
    &&& bases[k].authorization_version != 0
    &&& k + 1 < bases.len() ==> bases[k].oid.spec_before(bases[k + 1].oid)
}

/// Bases strictly increase by identity and each has a version.
pub open spec fn bases_ordered(bases: Seq<FixThinBase>) -> bool {
    forall|k: int| 0 <= k < bases.len() ==> #[trigger] base_ordered(bases, k)
}

/// Check the order and versions of the bases.
fn check_order(bases: &Vec<FixThinBase>) -> (ordered: bool)
    ensures
        ordered == bases_ordered(bases@),
{
    let mut at: usize = 0;
    while at < bases.len()
        invariant
            at <= bases@.len(),
            forall|k: int| 0 <= k < at ==> #[trigger] base_ordered(bases@, k),
        decreases bases.len() - at,
    {
        if bases[at].authorization_version == 0 {
            assert(!base_ordered(bases@, at as int));
            return false;
        }
        if at + 1 < bases.len() && !bases[at].oid.before(bases[at + 1].oid) {
            assert(!base_ordered(bases@, at as int));
            return false;
        }
        at = at + 1;
    }
    true
}

/// The plan belongs to this source and validation, and stays within the options.
pub open spec fn plan_bound(
    plan: FixThinPlan,
    validated: ValidatedPushPack,
    source: QuarantineSnapshot,
    options: FixThinOptions,
) -> bool {
    let checksums = (validated.attestation.pack_checksum, validated.attestation.index_checksum);
    &&& plan.spec_tenant() == source.tenant@
    &&& plan.spec_repository() == source.repository@
    &&& plan.spec_source() == (source.id, source.generation)
    &&& plan.spec_checksums() == checksums
    &&& 0 < plan.spec_bases().len() <= options.max_added_bases
    &&& plan.spec_added_bytes() <= options.max_added_base_bytes
    &&& plan.spec_output_bound() <= options.limits.max_pack_bytes
    &&& bases_ordered(plan.spec_bases())
    &&& plan.spec_fingerprint() == hashed_id(
        checksums.0.spec_algo(),
        plan_bytes(
            source.tenant@,
            source.repository@,
            source.id,
            source.generation,
            checksums.0,
            checksums.1,
            plan.spec_bases(),
            plan.spec_added_bytes(),
            plan.spec_work_units(),
            plan.spec_output_bound(),
        ),
    )
}

/// Check that a plan belongs to this source and validation.
pub fn validate_plan(
    plan: &FixThinPlan,
    validated: &ValidatedPushPack,
    source: &QuarantineSnapshot,
    options: &FixThinOptions,
) -> (result: Result<(), FixThinError>)
    ensures
        result == if plan_bound(*plan, *validated, *source, *options) {
            Ok::<(), FixThinError>(())
        } else {
            Err(FixThinError::InvalidBinding)
        },
{
    if !plan.tenant.same(&source.tenant) || !plan.repository.same(&source.repository)
        || plan.source_quarantine != source.id || plan.source_generation != source.generation
        || plan.source_pack_checksum != validated.attestation.pack_checksum
        || plan.source_index_checksum != validated.attestation.index_checksum || plan.bases.len()
        == 0 || plan.bases.len() > options.max_added_bases || plan.added_base_bytes
        > options.max_added_base_bytes || plan.output_upper_bound > options.limits.max_pack_bytes
        || !check_order(&plan.bases) {
        return Err(FixThinError::InvalidBinding);
    }
    let fingerprint: ObjectId = plan_fingerprint(
        &source.tenant,
        &source.repository,
        source,
        validated.attestation.pack_checksum,
        validated.attestation.index_checksum,
        &plan.bases,
        plan.added_base_bytes,
        plan.work_units,
        plan.output_upper_bound,
    );
    if fingerprint != plan.fingerprint {
        return Err(FixThinError::InvalidBinding);
    }
    Ok(())
}

/// One row's spans follow one another from `start` on and stay within the body.
pub open spec fn row_spans(row: PushPackIndexRow, ordinal: int, start: int, body_end: int) -> bool {
    &&& ordinal <= u32::MAX
    &&& row.ordinal == ordinal
    &&& row.entry.offset == start
    &&& row.entry.length > 0
    &&& row.header.offset == row.entry.offset
    &&& row.header.length > 0
    &&& row.base_header.offset == row.header.end()
    &&& row.base_header.end() == row.compressed.offset
    &&& row.compressed.length > 0
    &&& row.compressed.end() == row.entry.end()
    &&& row.entry.end() <= body_end
    &&& (row.representation is Direct) == (row.base_header.length == 0)
}

/// Where the row after the first `count` starts.
pub open spec fn rows_end(rows: Seq<PushPackIndexRow>, count: int) -> int {
    if count <= 0 {
        12
    } else {
        rows[count - 1].entry.end()
    }
}

/// The rows tile the body.
pub open spec fn spans_tile(rows: Seq<PushPackIndexRow>, body_end: int) -> bool {
    &&& forall|i: int|
        0 <= i < rows.len() ==> row_spans(#[trigger] rows[i], i, rows_end(rows, i), body_end)
    &&& rows_end(rows, rows.len() as int) == body_end
}

/// Check that the rows tile the body exactly.
pub fn validate_entry_spans(
    rows: &Vec<PushPackIndexRow>,
    manifest: &QuarantineManifest,
) -> (result: Result<(), FixThinError>)
    ensures
        result == if manifest.pack_bytes >= manifest.hash_algo.spec_len() && spans_tile(
            rows@,
            manifest.pack_bytes - manifest.hash_algo.spec_len(),
        ) {
            Ok::<(), FixThinError>(())
        } else {
            Err(FixThinError::InvalidBinding)
        },
{
    let width: u64 = manifest.hash_algo.len() as u64;
    if manifest.pack_bytes < width {
        return Err(FixThinError::InvalidBinding);
    }
    let body_end: u64 = manifest.pack_bytes - width;
    let mut expected: u64 = 12;
    let mut at: usize = 0;
    while at < rows.len()
        invariant
            at <= rows@.len(),
            body_end == manifest.pack_bytes - manifest.hash_algo.spec_len(),
            manifest.pack_bytes >= manifest.hash_algo.spec_len(),
            expected == rows_end(rows@, at as int),
            forall|i: int|
                0 <= i < at ==> row_spans(
                    #[trigger] rows@[i],
                    i,
                    rows_end(rows@, i),
                    body_end as int,
                ),
        decreases rows.len() - at,
    {
        let row = rows[at];
        let entry_end: u64 = match span_end(row.entry) {
            Ok(end) => end,
            Err(error) => {
                assert(!row_spans(rows@[at as int], at as int, expected as int, body_end as int));
                return Err(error);
            },
        };
        let header_end: u64 = match span_end(row.header) {
            Ok(end) => end,
            Err(error) => {
                assert(!row_spans(rows@[at as int], at as int, expected as int, body_end as int));
                return Err(error);
            },
        };
        let base_end: u64 = match span_end(row.base_header) {
            Ok(end) => end,
            Err(error) => {
                assert(!row_spans(rows@[at as int], at as int, expected as int, body_end as int));
                return Err(error);
            },
        };
        let compressed_end: u64 = match span_end(row.compressed) {
            Ok(end) => end,
            Err(error) => {
                assert(!row_spans(rows@[at as int], at as int, expected as int, body_end as int));
                return Err(error);
            },
        };
        let direct: bool = match row.representation {
            PushPackEntryKind::Direct => true,
            _ => false,
        };
        if at > u32::MAX as usize || row.ordinal as usize != at || row.entry.offset != expected
            || row.entry.length == 0 || row.header.offset != row.entry.offset || row.header.length
            == 0 || row.base_header.offset != header_end || base_end != row.compressed.offset
            || row.compressed.length == 0 || compressed_end != entry_end || entry_end > body_end
            || direct != (row.base_header.length == 0) {
            assert(!row_spans(rows@[at as int], at as int, expected as int, body_end as int));
            return Err(FixThinError::InvalidBinding);
        }
        expected = entry_end;
        at = at + 1;
    }
    if expected != body_end {
        return Err(FixThinError::InvalidBinding);
    }
    Ok(())
}

/// Progress of writing one replacement PACK.
struct RewriteWriter {
    fence: QuarantineFence,
    offset: u64,
    maximum: u64,
    appends: u64,
    maximum_appends: u64,
    maximum_chunk: usize,
    hasher: StreamHasher,
    start: Ghost<nat>,
}

/// Exactly these bytes were appended to an empty target.
spec fn appended(offset: u64, content: Seq<u8>, bytes: Seq<u8>) -> bool {
    &&& offset == bytes.len()
    &&& bytes.len() > 0 ==> content == bytes
}

impl RewriteWriter {
    spec fn same_bounds(self, other: RewriteWriter) -> bool {
        &&& self.fence == other.fence
        &&& self.maximum == other.maximum
        &&& self.maximum_appends == other.maximum_appends
        &&& self.maximum_chunk == other.maximum_chunk
        &&& self.start == other.start
        &&& self.hasher.spec_algo() == other.hasher.spec_algo()
    }

    spec fn ready(self, options: FixThinOptions, writes: nat) -> bool {
        &&& self.appends == writes - self.start@
        &&& self.maximum == options.limits.max_pack_bytes
        &&& self.maximum_appends == options.limits.max_object_operations
        &&& self.maximum_chunk == options.output_chunk_bytes
        &&& self.maximum_chunk > 0
        &&& self.appends <= self.offset
        &&& self.offset <= self.maximum
        &&& self.appends <= self.maximum_appends
    }

    /// Append bytes and include them in the PACK checksum.
    fn append_hashed<T: PackQuarantine, W: FixThinWork, C: FixThinControl>(
        &mut self,
        target: &mut T,
        bytes: &[u8],
        options: &FixThinOptions,
        work: &mut W,
        control: &mut C,
        last_observed_at: &mut Timestamp,
    ) -> (result: Result<(), FixThinError>)
        requires
            seen_at::<C>(*options, *old(last_observed_at)),
            old(self).ready(*options, old(target).writes().len()),
            appended(old(self).offset, old(target).content(), old(self).hasher.absorbed()),
        ensures
            final(target).steps() == old(target).steps(),
            seen_at::<C>(*options, *final(last_observed_at)),
            writes_under(old(self).fence, old(target).writes(), final(target).writes()),
            final(target).ranges() == old(target).ranges(),
            result == Err::<(), FixThinError>(FixThinError::Limit) ==> old(self).hasher.absorbed().len()
                <= final(target).content().len(),
            result matches Err(error) ==> writing_explained::<T, W, C>(
                old(self).fence,
                *options,
                final(target).writes().len() - old(self).start@,
                (old(self).hasher.absorbed().len() + bytes@.len()) as int,
                error,
            ),
            final(self).same_bounds(*old(self)),
            result is Ok ==> {
                &&& final(self).ready(*options, final(target).writes().len())
                &&& final(self).hasher.absorbed() == old(self).hasher.absorbed() + bytes@
                &&& appended(
                    final(self).offset,
                    final(target).content(),
                    final(self).hasher.absorbed(),
                )
            },
    {
        let ghost before = self.hasher.absorbed();
        self.hasher.update(bytes);
        self.append_unhashed(
            target,
            bytes,
            options,
            work,
            control,
            last_observed_at,
            Ghost(before),
        )
    }

    /// Append bytes in bounded chunks.
    fn append_unhashed<T: PackQuarantine, W: FixThinWork, C: FixThinControl>(
        &mut self,
        target: &mut T,
        bytes: &[u8],
        options: &FixThinOptions,
        work: &mut W,
        control: &mut C,
        last_observed_at: &mut Timestamp,
        Ghost(before): Ghost<Seq<u8>>,
    ) -> (result: Result<(), FixThinError>)
        requires
            seen_at::<C>(*options, *old(last_observed_at)),
            old(self).ready(*options, old(target).writes().len()),
            appended(old(self).offset, old(target).content(), before),
        ensures
            final(target).steps() == old(target).steps(),
            seen_at::<C>(*options, *final(last_observed_at)),
            writes_under(old(self).fence, old(target).writes(), final(target).writes()),
            final(target).ranges() == old(target).ranges(),
            result == Err::<(), FixThinError>(FixThinError::Limit) ==> before.len()
                <= final(target).content().len(),
            result matches Err(error) ==> writing_explained::<T, W, C>(
                old(self).fence,
                *options,
                final(target).writes().len() - old(self).start@,
                (before.len() + bytes@.len()) as int,
                error,
            ),
            final(self).same_bounds(*old(self)),
            final(self).hasher == old(self).hasher,
            result is Ok ==> final(self).ready(*options, final(target).writes().len()) && appended(
                final(self).offset,
                final(target).content(),
                before + bytes@,
            ),
    {
        let mut at: usize = 0;
        assert(before + bytes@.take(0) =~= before);
        while at < bytes.len()
            invariant
                seen_at::<C>(*options, *last_observed_at),
                target.steps() == old(target).steps(),
                writes_under(self.fence, old(target).writes(), target.writes()),
                target.ranges() == old(target).ranges(),
                at <= bytes@.len(),
                self.ready(*options, target.writes().len()),
                self.same_bounds(*old(self)),
                self.hasher == old(self).hasher,
                appended(self.offset, target.content(), before + bytes@.take(at as int)),
            decreases bytes.len() - at,
        {
            checkpoint(options, work, control, last_observed_at, 0)?;
            let end: usize = if bytes.len() - at > self.maximum_chunk {
                at + self.maximum_chunk
            } else {
                bytes.len()
            };
            let length: u64 = (end - at) as u64;
            if length > self.maximum - self.offset {
                return Err(FixThinError::Limit);
            }
            let next: u64 = self.offset + length;
            if self.appends >= self.maximum_appends {
                return Err(FixThinError::Limit);
            }
            let chunk: Vec<u8> = copy_range(bytes, at, end);
            let ghost prior = target.content();
            match target.append(self.fence, self.offset, chunk.as_slice()) {
                Ok(actual) => {
                    if actual != next {
                        return Err(FixThinError::Quarantine);
                    }
                },
                Err(_) => {
                    return Err(FixThinError::Quarantine);
                },
            }
            proof {
                let written = before + bytes@.take(at as int);
                if written.len() == 0 {
                    assert(prior =~= written);
                }
                assert(written + chunk@ =~= before + bytes@.take(end as int));
            }
            self.offset = next;
            self.appends = self.appends + 1;
            at = end;
        }
        assert(bytes@.take(at as int) =~= bytes@);
        Ok(())
    }
}

/// The options under which a replacement is validated.
pub open spec fn replacement_options(options: FixThinOptions) -> PushPackValidationOptions {
    PushPackValidationOptions {
        limits: options.limits,
        range_chunk_bytes: options.source_chunk_bytes,
        max_index_bytes: options.limits.max_metadata_memory_bytes,
        started_at: options.started_at,
        deadline: options.deadline,
    }
}

/// Under this description of the sealed replacement its validation is refused: the description
/// allows none, the options do not, or the bytes are refused without any outside base.
pub open spec fn replacement_refused<X: StructuralParser>(
    snapshot: QuarantineSnapshot,
    fence: QuarantineFence,
    content: Seq<u8>,
    options: FixThinOptions,
    error: PushPackValidationError,
) -> bool {
    ||| error == PushPackValidationError::InvalidLimits && (!replacement_options(options).valid()
        || options.source_chunk_bytes < MAX_PREFIX_BYTES)
    ||| quarantine_fault(snapshot, fence) == Some(error)
    ||| error == PushPackValidationError::InvalidExternalBase && base_failed::<
        NoAuthorizedPushBases,
    >(
        snapshot.tenant@,
        snapshot.repository@,
        snapshot.manifest->0.hash_algo,
        replacement_options(options),
    )
    ||| pack_refused::<NoAuthorizedPushBases, X>(
        snapshot,
        content,
        replacement_options(options),
        error,
    )
}

/// What validating the sealed replacement reports: a stop, a quarantine that cannot be read or
/// refuses the attestation, or a refused validation.
pub open spec fn replacement_explained<T: PackQuarantine, X: StructuralParser>(
    content: Seq<u8>,
    fence: QuarantineFence,
    options: FixThinOptions,
    error: FixThinError,
) -> bool {
    match error {
        FixThinError::Cancelled | FixThinError::Deadline | FixThinError::WorkBudget => true,
        FixThinError::Quarantine => unreadable::<T>(fence) || unattested::<T>(fence),
        FixThinError::Validation(fault) => exists|snapshot: QuarantineSnapshot| #[trigger]
            replacement_refused::<X>(snapshot, fence, content, options, fault),
        _ => false,
    }
}

/// The validated replacement needs an outside base, or has another count or checksum than it was
/// sealed with.
pub open spec fn replacement_differs<X: StructuralParser>(
    validated: ValidatedPushPack,
    content: Seq<u8>,
    limits: ReceivePackLimits,
    count: int,
    step: QuarantineStep,
) -> bool {
    &&& validated_from::<X>(validated, content, limits)
    &&& {
        ||| !validated.attestation.self_contained
        ||| validated.attestation.object_count != count
        ||| !(step matches QuarantineStep::Sealed { checksum, .. } && checksum
            == validated.attestation.pack_checksum)
    }
}

/// What is reported once the replacement is sealed: a stop, what validating it reports, or a
/// replacement that does not fit its seal.
pub open spec fn sealed_explained<
    T: PackQuarantine,
    X: StructuralParser,
    W: FixThinWork,
    C: FixThinControl,
>(
    target: T,
    step: QuarantineStep,
    count: int,
    options: FixThinOptions,
    error: FixThinError,
) -> bool {
    ||| interrupted::<W, C>(options, 1, error)
    ||| step matches QuarantineStep::Sealed { sealed, .. } && replacement_explained::<T, X>(
        target.content(),
        sealed,
        options,
        error,
    )
    ||| error == FixThinError::InvalidBinding && (target.described().manifest is None || exists|
        validated: ValidatedPushPack,
    | #[trigger]
        replacement_differs::<X>(validated, target.content(), options.limits, count, step))
}

/// One packed base: its header, then a stream of a payload that hashes to its identity.
pub open spec fn base_entry(base: FixThinBase, entry: Seq<u8>) -> bool {
    let header = entry_header(base.kind.code(), base.payload_bytes as nat);
    let payload = zlib_decoded(entry.skip(header.len() as int));
    &&& header.len() <= entry.len()
    &&& entry.take(header.len() as int) == header
    &&& payload is Some
    &&& payload->0.len() == base.payload_bytes
    &&& canonical_id(base.oid.spec_algo(), base.kind, payload->0) == base.oid
}

/// The bytes are the packed entries of all bases in order.
pub open spec fn base_entries(bases: Seq<FixThinBase>, bytes: Seq<u8>) -> bool
    decreases bases.len(),
{
    if bases.len() == 0 {
        bytes.len() == 0
    } else {
        exists|split: int|
            0 <= split <= bytes.len() && base_entries(bases.drop_last(), bytes.take(split))
                && #[trigger] base_entry(bases.last(), bytes.skip(split))
    }
}

/// The number of bytes in front of a buffer that a call has filled.
fn counted(output: &Vec<u8>, produced: u64) -> (count: usize)
    requires
        produced <= output@.len(),
    ensures
        count == produced,
{
    let capacity: usize = output.len();
    if produced > capacity as u64 {
        capacity
    } else {
        produced as usize
    }
}

/// One more packed base extends the packed bases.
proof fn lemma_base_entries_extend(
    bases: Seq<FixThinBase>,
    base: FixThinBase,
    bytes: Seq<u8>,
    entry: Seq<u8>,
)
    requires
        base_entries(bases, bytes),
        base_entry(base, entry),
    ensures
        base_entries(bases.push(base), bytes + entry),
{
    let all = bytes + entry;
    assert(bases.push(base).drop_last() =~= bases);
    assert(all.take(bytes.len() as int) =~= bytes);
    assert(all.skip(bytes.len() as int) =~= entry);
    assert(base_entry(bases.push(base).last(), all.skip(bytes.len() as int)));
}

/// Compress one chunk of a base.
fn compress_input<T: PackQuarantine, W: FixThinWork, C: FixThinControl>(
    writer: &mut RewriteWriter,
    target: &mut T,
    compressor: &mut flate2::Compress,
    input: &[u8],
    output: &mut Vec<u8>,
    options: &FixThinOptions,
    work: &mut W,
    control: &mut C,
    last_observed_at: &mut Timestamp,
    Ghost(front): Ghost<Seq<u8>>,
) -> (result: Result<(), FixThinError>)
    requires
        seen_at::<C>(*options, *old(last_observed_at)),
        old(writer).ready(*options, old(target).writes().len()),
        appended(old(writer).offset, old(target).content(), old(writer).hasher.absorbed()),
        old(writer).hasher.absorbed() == front + deflate_output(*old(compressor)),
        old(output)@.len() == options.output_chunk_bytes,
    ensures
        final(target).steps() == old(target).steps(),
        seen_at::<C>(*options, *final(last_observed_at)),
        writes_under(old(writer).fence, old(target).writes(), final(target).writes()),
        final(target).ranges() == old(target).ranges(),
        result matches Err(error) ==> squeezing_explained::<T, W, C>(
            old(writer).fence,
            *options,
            final(target).writes().len() - old(writer).start@,
            final(target).content().len() as int,
            error,
        ),
        final(writer).same_bounds(*old(writer)),
        final(output)@.len() == old(output)@.len(),
        result is Ok ==> {
            &&& final(writer).ready(*options, final(target).writes().len())
            &&& appended(
                final(writer).offset,
                final(target).content(),
                final(writer).hasher.absorbed(),
            )
            &&& final(writer).hasher.absorbed() == front + deflate_output(*final(compressor))
            &&& deflate_input(*final(compressor)) == deflate_input(*old(compressor)) + input@
        },
{
    let ghost fed = deflate_input(*compressor);
    let mut at: usize = 0;
    let start_in: u64 = compress_total_in(compressor);
    assert(fed + input@.take(0) =~= fed);
    while at < input.len()
        invariant
            seen_at::<C>(*options, *last_observed_at),
            target.steps() == old(target).steps(),
            writes_under(old(writer).fence, old(target).writes(), target.writes()),
            target.ranges() == old(target).ranges(),
            at <= input@.len(),
            writer.ready(*options, target.writes().len()),
            writer.same_bounds(*old(writer)),
            output@.len() == old(output)@.len(),
            appended(writer.offset, target.content(), writer.hasher.absorbed()),
            writer.hasher.absorbed() == front + deflate_output(*compressor),
            deflate_input(*compressor) == fed + input@.take(at as int),
            fed == deflate_input(*old(compressor)),
            start_in == fed.len(),
            output@.len() == options.output_chunk_bytes,
        decreases (input.len() - at) + (writer.maximum - writer.offset),
    {
        let before_in: u64 = compress_total_in(compressor);
        let before_out: u64 = compress_total_out(compressor);
        let ghost prior_in = deflate_input(*compressor);
        let ghost prior_out = deflate_output(*compressor);
        let rest: Vec<u8> = copy_range(input, at, input.len());
        let status = match compress_step(compressor, rest.as_slice(), output, false) {
            Ok(status) => status,
            Err(_) => {
                return Err(FixThinError::Compression);
            },
        };
        if status == ZlibStatus::Ended {
            return Err(FixThinError::Compression);
        }
        let consumed: usize = (compress_total_in(compressor) - before_in) as usize;
        let produced: usize = counted(output, compress_total_out(compressor) - before_out);
        proof {
            assert(prior_in + rest@.take(consumed as int) =~= fed + input@.take(at + consumed));
            assert(prior_out + output@.take(produced as int) == deflate_output(*compressor));
        }
        at = at + consumed;
        if produced > 0 {
            let chunk: Vec<u8> = copy_range(output.as_slice(), 0, produced);
            assert(chunk@ =~= output@.take(produced as int));
            assert(squeezed(options.output_chunk_bytes as int, produced as int));
            writer.append_hashed(
                target,
                chunk.as_slice(),
                options,
                work,
                control,
                last_observed_at,
            )?;
            assert(front + prior_out + chunk@ =~= front + deflate_output(*compressor));
            checkpoint(options, work, control, last_observed_at, 1)?;
        } else {
            assert(prior_out + output@.take(0) =~= prior_out);
        }
        if consumed == 0 && produced == 0 {
            return Err(FixThinError::Compression);
        }
    }
    assert(input@.take(at as int) =~= input@);
    Ok(())
}

/// Finish the stream of a base.
fn finish_compression<T: PackQuarantine, W: FixThinWork, C: FixThinControl>(
    writer: &mut RewriteWriter,
    target: &mut T,
    compressor: &mut flate2::Compress,
    output: &mut Vec<u8>,
    options: &FixThinOptions,
    work: &mut W,
    control: &mut C,
    last_observed_at: &mut Timestamp,
    Ghost(front): Ghost<Seq<u8>>,
) -> (result: Result<(), FixThinError>)
    requires
        seen_at::<C>(*options, *old(last_observed_at)),
        old(writer).ready(*options, old(target).writes().len()),
        appended(old(writer).offset, old(target).content(), old(writer).hasher.absorbed()),
        old(writer).hasher.absorbed() == front + deflate_output(*old(compressor)),
        old(output)@.len() == options.output_chunk_bytes,
    ensures
        final(target).steps() == old(target).steps(),
        seen_at::<C>(*options, *final(last_observed_at)),
        writes_under(old(writer).fence, old(target).writes(), final(target).writes()),
        final(target).ranges() == old(target).ranges(),
        result matches Err(error) ==> squeezing_explained::<T, W, C>(
            old(writer).fence,
            *options,
            final(target).writes().len() - old(writer).start@,
            final(target).content().len() as int,
            error,
        ),
        final(writer).same_bounds(*old(writer)),
        result is Ok ==> {
            &&& final(writer).ready(*options, final(target).writes().len())
            &&& appended(
                final(writer).offset,
                final(target).content(),
                final(writer).hasher.absorbed(),
            )
            &&& final(writer).hasher.absorbed() == front + deflate_output(*final(compressor))
            &&& deflate_input(*final(compressor)) == deflate_input(*old(compressor))
            &&& zlib_decoded(deflate_output(*final(compressor))) == Some(
                deflate_input(*old(compressor)),
            )
        },
{
    let ghost fed = deflate_input(*compressor);
    let empty: Vec<u8> = Vec::new();
    loop
        invariant
            seen_at::<C>(*options, *last_observed_at),
            target.steps() == old(target).steps(),
            writes_under(old(writer).fence, old(target).writes(), target.writes()),
            target.ranges() == old(target).ranges(),
            writer.ready(*options, target.writes().len()),
            writer.same_bounds(*old(writer)),
            empty@.len() == 0,
            appended(writer.offset, target.content(), writer.hasher.absorbed()),
            writer.hasher.absorbed() == front + deflate_output(*compressor),
            deflate_input(*compressor) == fed,
            fed == deflate_input(*old(compressor)),
            output@.len() == options.output_chunk_bytes,
        decreases writer.maximum - writer.offset,
    {
        let before_out: u64 = compress_total_out(compressor);
        let ghost prior_out = deflate_output(*compressor);
        let status = match compress_step(compressor, empty.as_slice(), output, true) {
            Ok(status) => status,
            Err(_) => {
                return Err(FixThinError::Compression);
            },
        };
        let produced: usize = counted(output, compress_total_out(compressor) - before_out);
        assert(fed + empty@.take(0) =~= fed);
        if produced > 0 {
            let chunk: Vec<u8> = copy_range(output.as_slice(), 0, produced);
            assert(chunk@ =~= output@.take(produced as int));
            assert(squeezed(options.output_chunk_bytes as int, produced as int));
            writer.append_hashed(
                target,
                chunk.as_slice(),
                options,
                work,
                control,
                last_observed_at,
            )?;
            assert(front + prior_out + chunk@ =~= front + deflate_output(*compressor));
            checkpoint(options, work, control, last_observed_at, 1)?;
        } else {
            assert(prior_out + output@.take(0) =~= prior_out);
        }
        if status == ZlibStatus::Ended {
            return Ok(());
        }
        if produced == 0 {
            return Err(FixThinError::Compression);
        }
    }
}

/// Append one base as a direct entry and return how many ranges were read.
fn write_direct_base<
    T: PackQuarantine,
    P: AuthorizedThinBaseProvider,
    W: FixThinWork,
    C: FixThinControl,
>(
    writer: &mut RewriteWriter,
    target: &mut T,
    base: &FixThinBase,
    provider: &mut P,
    tenant: &TenantId,
    repository: &RepositoryId,
    options: &FixThinOptions,
    work: &mut W,
    control: &mut C,
    last_observed_at: &mut Timestamp,
    maximum_reads: u64,
) -> (result: Result<u64, FixThinError>)
    requires
        seen_at::<C>(*options, *old(last_observed_at)),
        old(writer).ready(*options, old(target).writes().len()),
        options.valid(),
        appended(old(writer).offset, old(target).content(), old(writer).hasher.absorbed()),
    ensures
        final(target).steps() == old(target).steps(),
        writes_under(old(writer).fence, old(target).writes(), final(target).writes()),
        final(target).ranges() == old(target).ranges(),
        seen_at::<C>(*options, *final(last_observed_at)),
        result matches Err(error) ==> {
            ||| packing_explained::<T, W, C>(
                old(writer).fence,
                *base,
                *options,
                final(target).writes().len() - old(writer).start@,
                final(target).content().len() as int,
                error,
            )
            ||| reading_base_failed::<P, W, C>(tenant@, repository@, *base, *options, error)
            ||| error == FixThinError::Limit && chunk_count(
                base.payload_bytes as int,
                options.base_chunk_bytes as int,
            ) > maximum_reads
        },
        final(writer).same_bounds(*old(writer)),
        result is Ok ==> {
            let before = old(writer).hasher.absorbed();
            let after = final(writer).hasher.absorbed();
            &&& base_read::<P, W, C>(tenant@, repository@, *base, *options)
            &&& final(writer).ready(*options, final(target).writes().len())
            &&& appended(final(writer).offset, final(target).content(), after)
            &&& before.len() <= after.len()
            &&& after.take(before.len() as int) == before
            &&& base_entry(*base, after.skip(before.len() as int))
            &&& result->Ok_0 == chunk_count(
                base.payload_bytes as int,
                options.base_chunk_bytes as int,
            )
            &&& result->Ok_0 <= maximum_reads
        },
{
    proof {
        reveal(base_read);
        reveal(reading_base_failed);
    }
    let ghost start = writer.hasher.absorbed();
    let header: Vec<u8> = encode_entry_header(base.kind, base.payload_bytes);
    writer.append_hashed(target, header.as_slice(), options, work, control, last_observed_at)?;
    checkpoint(options, work, control, last_observed_at, 1)?;
    let ghost front = writer.hasher.absorbed();
    let mut object_hasher = StreamHasher::new(base.oid.algo());
    let object_header: Vec<u8> = object_header_bytes(base.kind, base.payload_bytes);
    object_hasher.update(object_header.as_slice());
    let mut compressor = compress_new();
    let mut output: Vec<u8> = zeroed(options.output_chunk_bytes);
    let mut payload_offset: u64 = 0;
    let mut reads: u64 = 0;
    proof {
        assert(front + Seq::<u8>::empty() =~= front);
        assert(object_hasher.absorbed() =~= object_header@ + Seq::<u8>::empty());
    }
    while payload_offset < base.payload_bytes
        invariant
            seen_at::<C>(*options, *last_observed_at),
            target.steps() == old(target).steps(),
            writes_under(old(writer).fence, old(target).writes(), target.writes()),
            target.ranges() == old(target).ranges(),
            options.valid(),
            writer.ready(*options, target.writes().len()),
            writer.same_bounds(*old(writer)),
            appended(writer.offset, target.content(), writer.hasher.absorbed()),
            writer.hasher.absorbed() == front + deflate_output(compressor),
            deflate_input(compressor).len() == payload_offset,
            payload_offset <= base.payload_bytes,
            reads <= maximum_reads,
            reads + chunk_count(base.payload_bytes - payload_offset, options.base_chunk_bytes as int)
                == chunk_count(base.payload_bytes as int, options.base_chunk_bytes as int),
            object_hasher.spec_algo() == base.oid.spec_algo(),
            object_hasher.absorbed() == object_header@ + deflate_input(compressor),
            pieces_read::<P, W, C>(
                tenant@,
                repository@,
                *base,
                *options,
                deflate_input(compressor),
            ),
            output@.len() == options.output_chunk_bytes,
        decreases base.payload_bytes - payload_offset,
    {
        proof {
            reveal(reading_base_failed);
        }
        let remaining: u64 = base.payload_bytes - payload_offset;
        let length: usize = bounded_length(remaining, options.base_chunk_bytes)?;
        proof {
            crate::push_metrics::law_valid_limits_are_bounded(options.limits);
        }
        let units: u64 = match (length as u64).checked_mul(2) {
            Some(units) => units,
            None => {
                return Err(FixThinError::Limit);
            },
        };
        checkpoint(options, work, control, last_observed_at, units)?;
        let input: Vec<u8> = match provider.read_base_range(
            tenant,
            repository,
            base.oid,
            base.authorization_version,
            payload_offset,
            length,
        ) {
            Ok(input) => input,
            Err(failure) => {
                assert(failure == ThinBaseSourceError);
                assert(range_read::<P>(
                    tenant@,
                    repository@,
                    *base,
                    payload_offset,
                    length,
                    Err(ThinBaseSourceError),
                ));
                return Err(FixThinError::MissingBase);
            },
        };
        assert(range_read::<P>(
            tenant@,
            repository@,
            *base,
            payload_offset,
            length,
            Ok(input),
        ));
        checkpoint(options, work, control, last_observed_at, 1)?;
        if input.len() != length {
            return Err(FixThinError::CorruptBase);
        }
        proof {
            lemma_chunk_step(remaining as int, options.base_chunk_bytes as int);
            lemma_chunks_counted(
                remaining - length,
                options.base_chunk_bytes as int,
            );
        }
        if reads >= maximum_reads {
            return Err(FixThinError::Limit);
        }
        reads = reads + 1;
        let ghost prior = deflate_input(compressor);
        object_hasher.update(input.as_slice());
        compress_input(
            writer,
            target,
            &mut compressor,
            input.as_slice(),
            &mut output,
            options,
            work,
            control,
            last_observed_at,
            Ghost(front),
        )?;
        assert(object_header@ + prior + input@ =~= object_header@ + deflate_input(compressor));
        proof {
            let payload = deflate_input(compressor);
            assert(payload.take(prior.len() as int) =~= prior);
            assert(payload.skip(prior.len() as int) =~= input@);
            assert(piece_read::<P, W, C>(
                tenant@,
                repository@,
                *base,
                *options,
                prior.len() as int,
                input,
            ));
        }
        payload_offset = payload_offset + length as u64;
    }
    let ghost payload = deflate_input(compressor);
    proof {
        lemma_no_chunk(options.base_chunk_bytes as int);
        assert(pieces_read::<P, W, C>(tenant@, repository@, *base, *options, payload));
    }
    finish_compression(
        writer,
        target,
        &mut compressor,
        &mut output,
        options,
        work,
        control,
        last_observed_at,
        Ghost(front),
    )?;
    let found: ObjectId = object_hasher.finish();
    if found != base.oid {
        return Err(FixThinError::CorruptBase);
    }
    proof {
        let after = writer.hasher.absorbed();
        let entry = after.skip(start.len() as int);
        assert(front == start + header@);
        assert(after.take(start.len() as int) =~= start);
        assert(entry =~= header@ + deflate_output(compressor));
        assert(entry.take(header@.len() as int) =~= header@);
        assert(entry.skip(header@.len() as int) =~= deflate_output(compressor));
        assert(zlib_decoded(entry.skip(header@.len() as int)) == Some(payload));
    }
    Ok(reads)
}

/// The structural working set that added bases need in the final validation.
pub open spec fn structural_bytes(bases: Seq<FixThinBase>) -> int
    decreases bases.len(),
{
    if bases.len() == 0 {
        0
    } else {
        structural_bytes(bases.drop_last()) + if bases.last().kind == ObjectKind::Blob {
            0
        } else {
            bases.last().payload_bytes * 8 + 128
        }
    }
}

/// Structural bytes are never negative and only grow.
proof fn lemma_structural_grows(bases: Seq<FixThinBase>, count: int)
    requires
        0 <= count <= bases.len(),
    ensures
        0 <= structural_bytes(bases.take(count)) <= structural_bytes(bases),
    decreases bases.len(),
{
    if bases.len() == 0 {
        assert(bases.take(count) =~= bases);
    } else if count == bases.len() {
        assert(bases.take(count) =~= bases);
        assert(bases.drop_last().take(count - 1) =~= bases.drop_last());
        lemma_structural_grows(bases.drop_last(), count - 1);
    } else {
        lemma_structural_grows(bases.drop_last(), count);
        assert(bases.drop_last().take(count) =~= bases.take(count));
    }
}

/// Sum the structural working set of added bases.
pub fn added_structural_bytes(bases: &Vec<FixThinBase>) -> (result: Result<u64, FixThinError>)
    ensures
        match result {
            Ok(total) => total == structural_bytes(bases@),
            Err(error) => error == FixThinError::Limit && structural_bytes(bases@) > u64::MAX,
        },
{
    let mut total: u64 = 0;
    let mut at: usize = 0;
    assert(bases@.take(0) =~= Seq::<FixThinBase>::empty());
    while at < bases.len()
        invariant
            at <= bases@.len(),
            total == structural_bytes(bases@.take(at as int)),
        decreases bases.len() - at,
    {
        let base = &bases[at];
        proof {
            let next = bases@.take(at + 1);
            assert(next.drop_last() =~= bases@.take(at as int));
            assert(next.last() == bases@[at as int]);
            lemma_structural_grows(bases@, at + 1);
        }
        match base.kind {
            ObjectKind::Blob => {},
            _ => {
                let bytes: u64 = match base.payload_bytes.checked_mul(8) {
                    Some(bytes) => match bytes.checked_add(FIX_THIN_BASE_OVERHEAD) {
                        Some(bytes) => bytes,
                        None => {
                            return Err(FixThinError::Limit);
                        },
                    },
                    None => {
                        return Err(FixThinError::Limit);
                    },
                };
                total =
                match total.checked_add(bytes) {
                    Some(total) => total,
                    None => {
                        return Err(FixThinError::Limit);
                    },
                };
            },
        }
        at = at + 1;
    }
    assert(bases@.take(at as int) =~= bases@);
    Ok(total)
}

/// Copy the source entries unchanged behind the new header and return how many ranges were read.
fn copy_source_entries<
    S: PackQuarantine,
    T: PackQuarantine,
    W: FixThinWork,
    C: FixThinControl,
>(
    writer: &mut RewriteWriter,
    source: &mut S,
    target: &mut T,
    fence: QuarantineFence,
    trailer_start: u64,
    options: &FixThinOptions,
    work: &mut W,
    control: &mut C,
    last_observed_at: &mut Timestamp,
) -> (result: Result<u64, FixThinError>)
    requires
        seen_at::<C>(*options, *old(last_observed_at)),
        old(writer).ready(*options, old(target).writes().len()),
        options.valid(),
        trailer_start >= 12,
        old(writer).hasher.absorbed().len() == 12,
        appended(old(writer).offset, old(target).content(), old(writer).hasher.absorbed()),
    ensures
        final(target).steps() == old(target).steps(),
        writes_under(old(writer).fence, old(target).writes(), final(target).writes()),
        final(target).ranges() == old(target).ranges(),
        seen_at::<C>(*options, *final(last_observed_at)),
        result matches Err(error) ==> {
            ||| writing_explained::<T, W, C>(
                old(writer).fence,
                *options,
                final(target).writes().len() - old(writer).start@,
                trailer_start as int,
                error,
            )
            ||| copying_failed::<S>(fence, trailer_start as int, *options, error)
        },
        final(writer).same_bounds(*old(writer)),
        final(source).content() == old(source).content(),
        final(source).steps() == old(source).steps(),
        final(source).writes() == old(source).writes(),
        reads_under(fence, old(source).ranges(), final(source).ranges()),
        result is Ok ==> {
            &&& final(writer).ready(*options, final(target).writes().len())
            &&& appended(
                final(writer).offset,
                final(target).content(),
                final(writer).hasher.absorbed(),
            )
            &&& trailer_start > 12 ==> trailer_start <= old(source).content().len()
            &&& final(writer).hasher.absorbed() == old(writer).hasher.absorbed() + if trailer_start
                == 12 {
                Seq::<u8>::empty()
            } else {
                old(source).content().subrange(12, trailer_start as int)
            }
            &&& result->Ok_0 == 1 + chunk_count(
                trailer_start - 12,
                options.source_chunk_bytes as int,
            )
            &&& result->Ok_0 <= options.limits.max_range_operations
        },
{
    let ghost before = writer.hasher.absorbed();
    let ghost content = source.content();
    let mut reads: u64 = 1;
    proof {
        lemma_chunks_counted(trailer_start - 12, options.source_chunk_bytes as int);
    }
    if reads > options.limits.max_range_operations {
        return Err(FixThinError::Limit);
    }
    let mut offset: u64 = 12;
    assert(before + Seq::<u8>::empty() =~= before);
    while offset < trailer_start
        invariant
            seen_at::<C>(*options, *last_observed_at),
            target.steps() == old(target).steps(),
            writes_under(old(writer).fence, old(target).writes(), target.writes()),
            target.ranges() == old(target).ranges(),
            options.valid(),
            12 <= offset <= trailer_start,
            1 <= reads <= options.limits.max_range_operations,
            reads + chunk_count(trailer_start - offset, options.source_chunk_bytes as int) == 1
                + chunk_count(trailer_start - 12, options.source_chunk_bytes as int),
            writer.ready(*options, target.writes().len()),
            writer.same_bounds(*old(writer)),
            source.content() == content,
            source.steps() == old(source).steps(),
            source.writes() == old(source).writes(),
            before.len() == 12,
            reads_under(fence, old(source).ranges(), source.ranges()),
            content == old(source).content(),
            appended(writer.offset, target.content(), writer.hasher.absorbed()),
            offset > 12 ==> offset <= content.len(),
            writer.hasher.absorbed() == before + if offset == 12 {
                Seq::<u8>::empty()
            } else {
                content.subrange(12, offset as int)
            },
        decreases trailer_start - offset,
    {
        let remaining: u64 = trailer_start - offset;
        let length: usize = bounded_length(remaining, options.source_chunk_bytes)?;
        checkpoint(options, work, control, last_observed_at, length as u64)?;
        proof {
            lemma_chunk_step(remaining as int, options.source_chunk_bytes as int);
            lemma_chunks_counted(remaining - length, options.source_chunk_bytes as int);
        }
        if reads >= options.limits.max_range_operations {
            return Err(FixThinError::Limit);
        }
        let bytes: Vec<u8> = match source.read_range(fence, offset, length) {
            Ok(bytes) => bytes,
            Err(_) => {
                return Err(FixThinError::Quarantine);
            },
        };
        checkpoint(options, work, control, last_observed_at, 1)?;
        if bytes.len() != length {
            return Err(FixThinError::Quarantine);
        }
        let ghost prior = writer.hasher.absorbed();
        writer.append_hashed(target, bytes.as_slice(), options, work, control, last_observed_at)?;
        checkpoint(options, work, control, last_observed_at, 1)?;
        proof {
            assert(prior + bytes@ =~= before + content.subrange(12, offset + length));
            lemma_chunk_step(remaining as int, options.source_chunk_bytes as int);
        }
        offset = offset + length as u64;
        reads = reads + 1;
    }
    proof {
        lemma_no_chunk(options.source_chunk_bytes as int);
    }
    Ok(reads)
}

/// Ranges read for the bases, each in chunks.
pub open spec fn base_ranges(bases: Seq<FixThinBase>, chunk: int) -> int
    decreases bases.len(),
{
    if bases.len() == 0 {
        0
    } else {
        base_ranges(bases.drop_last(), chunk) + chunk_count(
            bases.last().payload_bytes as int,
            chunk,
        )
    }
}

/// The first chunk of a positive length leaves one chunk less.
proof fn lemma_chunk_step(total: int, chunk: int)
    requires
        total > 0,
        chunk > 0,
    ensures
        chunk_count(total, chunk) == 1 + chunk_count(
            if total < chunk {
                0
            } else {
                total - chunk
            },
            chunk,
        ),
{
    if total < chunk {
        vstd::arithmetic::div_mod::lemma_small_mod(total as nat, chunk as nat);
        vstd::arithmetic::div_mod::lemma_basic_div(total, chunk);
        lemma_no_chunk(chunk);
    } else {
        vstd::arithmetic::div_mod::lemma_div_minus_one(total, chunk);
        vstd::arithmetic::div_mod::lemma_mod_sub_multiples_vanish(total, chunk);
    }
}

/// No fewer than no chunks are taken.
proof fn lemma_chunks_counted(total: int, chunk: int)
    requires
        total >= 0,
        chunk > 0,
    ensures
        chunk_count(total, chunk) >= 0,
{
    vstd::arithmetic::div_mod::lemma_div_pos_is_pos(total, chunk);
}

/// Fewer bases take no more reads.
proof fn lemma_ranges_grow(bases: Seq<FixThinBase>, count: int, chunk: int)
    requires
        0 <= count <= bases.len(),
        chunk > 0,
    ensures
        0 <= base_ranges(bases.take(count), chunk) <= base_ranges(bases, chunk),
    decreases bases.len(),
{
    if bases.len() > 0 {
        lemma_chunks_counted(bases.last().payload_bytes as int, chunk);
        if count < bases.len() {
            assert(bases.drop_last().take(count) =~= bases.take(count));
            lemma_ranges_grow(bases.drop_last(), count, chunk);
        } else {
            assert(bases.take(count) =~= bases);
            lemma_ranges_grow(bases.drop_last(), count - 1, chunk);
            assert(bases.drop_last().take(count - 1) =~= bases.drop_last());
        }
    } else {
        assert(bases.take(count) =~= bases);
    }
}

/// Nothing takes no chunk.
proof fn lemma_no_chunk(chunk: int)
    requires
        chunk > 0,
    ensures
        chunk_count(0, chunk) == 0,
{
    vstd::arithmetic::div_mod::lemma_small_mod(0, chunk as nat);
    vstd::arithmetic::div_mod::lemma_basic_div(0, chunk);
}

/// Append every base of a plan as a direct entry and return how many ranges were read.
fn write_direct_bases<
    T: PackQuarantine,
    P: AuthorizedThinBaseProvider,
    W: FixThinWork,
    C: FixThinControl,
>(
    writer: &mut RewriteWriter,
    target: &mut T,
    plan: &FixThinPlan,
    provider: &mut P,
    options: &FixThinOptions,
    work: &mut W,
    control: &mut C,
    last_observed_at: &mut Timestamp,
) -> (result: Result<u64, FixThinError>)
    requires
        seen_at::<C>(*options, *old(last_observed_at)),
        old(writer).ready(*options, old(target).writes().len()),
        options.valid(),
        appended(old(writer).offset, old(target).content(), old(writer).hasher.absorbed()),
    ensures
        final(target).steps() == old(target).steps(),
        writes_under(old(writer).fence, old(target).writes(), final(target).writes()),
        final(target).ranges() == old(target).ranges(),
        seen_at::<C>(*options, *final(last_observed_at)),
        result matches Err(error) ==> {
            ||| bases_explained::<T, P, W, C>(
                old(writer).fence,
                *plan,
                *options,
                final(target).writes().len() - old(writer).start@,
                final(target).content().len() as int,
                error,
            )
        },
        result is Ok ==> bases_read::<P, W, C>(*plan, *options),
        final(writer).same_bounds(*old(writer)),
        result is Ok ==> {
            let before = old(writer).hasher.absorbed();
            let after = final(writer).hasher.absorbed();
            &&& final(writer).ready(*options, final(target).writes().len())
            &&& appended(final(writer).offset, final(target).content(), after)
            &&& before.len() <= after.len()
            &&& after.take(before.len() as int) == before
            &&& base_entries(plan.spec_bases(), after.skip(before.len() as int))
            &&& result->Ok_0 == base_ranges(plan.spec_bases(), options.base_chunk_bytes as int)
            &&& result->Ok_0 <= options.limits.max_external_operations
        },
{
    let ghost before = writer.hasher.absorbed();
    let mut reads: u64 = 0;
    let mut at: usize = 0;
    assert(before.take(before.len() as int) =~= before);
    assert(plan.bases@.take(0) =~= Seq::<FixThinBase>::empty());
    while at < plan.bases.len()
        invariant
            seen_at::<C>(*options, *last_observed_at),
            target.steps() == old(target).steps(),
            writes_under(old(writer).fence, old(target).writes(), target.writes()),
            target.ranges() == old(target).ranges(),
            options.valid(),
            at <= plan.bases@.len(),
            reads <= options.limits.max_external_operations,
            reads == base_ranges(plan.bases@.take(at as int), options.base_chunk_bytes as int),
            writer.ready(*options, target.writes().len()),
            writer.same_bounds(*old(writer)),
            appended(writer.offset, target.content(), writer.hasher.absorbed()),
            before.len() <= writer.hasher.absorbed().len(),
            writer.hasher.absorbed().take(before.len() as int) == before,
            base_entries(
                plan.bases@.take(at as int),
                writer.hasher.absorbed().skip(before.len() as int),
            ),
            forall|k: int|
                0 <= k < at ==> #[trigger] base_read::<P, W, C>(
                    plan.spec_tenant(),
                    plan.spec_repository(),
                    plan.spec_bases()[k],
                    *options,
                ),
        decreases plan.bases.len() - at,
    {
        proof {
            lemma_ranges_grow(plan.bases@, at + 1, options.base_chunk_bytes as int);
            assert(plan.bases@.take(at + 1).drop_last() =~= plan.bases@.take(at as int));
        }
        let ghost prior = writer.hasher.absorbed();
        let added: u64 = match write_direct_base(
            writer,
            target,
            &plan.bases[at],
            provider,
            &plan.tenant,
            &plan.repository,
            options,
            work,
            control,
            last_observed_at,
            options.limits.max_external_operations - reads,
        ) {
            Ok(added) => added,
            Err(error) => {
                proof {
                    let base = plan.spec_bases()[at as int];
                    assert(base == plan.bases@[at as int]);
                    assert(plan.bases@.take(at + 1).last() == base);
                    assert(reading_base_failed::<P, W, C>(
                        plan.tenant@,
                        plan.repository@,
                        base,
                        *options,
                        error,
                    ) == reading_base_failed::<P, W, C>(
                        plan.spec_tenant(),
                        plan.spec_repository(),
                        plan.spec_bases()[at as int],
                        *options,
                        error,
                    ));
                }
                return Err(error);
            },
        };
        reads = reads + added;
        proof {
            let after = writer.hasher.absorbed();
            let bytes = prior.skip(before.len() as int);
            let entry = after.skip(prior.len() as int);
            lemma_base_entries_extend(
                plan.bases@.take(at as int),
                plan.bases@[at as int],
                bytes,
                entry,
            );
            assert(plan.bases@.take(at as int).push(plan.bases@[at as int]) =~= plan.bases@.take(
                at + 1,
            ));
            assert(plan.bases@.take(at + 1).drop_last() =~= plan.bases@.take(at as int));
            assert(after.skip(before.len() as int) =~= bytes + entry) by {
                assert forall|i: int| 0 <= i < prior.len() implies after[i] == prior[i] by {
                    assert(after.take(prior.len() as int)[i] == prior[i]);
                }
            }
            assert(after.take(before.len() as int) =~= before) by {
                assert forall|i: int| 0 <= i < before.len() implies after[i] == before[i] by {
                    assert(after.take(prior.len() as int)[i] == prior[i]);
                    assert(prior.take(before.len() as int)[i] == before[i]);
                }
            }
        }
        at = at + 1;
    }
    assert(plan.bases@.take(at as int) =~= plan.bases@);
    Ok(reads)
}

/// The thickened PACK without its checksum: the source entries behind a header that counts the
/// bases too, and the packed bases.
pub open spec fn thickened(
    source: Seq<u8>,
    body_end: int,
    count: u32,
    added: Seq<u8>,
) -> Seq<u8> {
    recounted_header(source.take(12), count) + source.subrange(12, body_end) + added
}

/// The target holds the thickened source and the checksum of it.
pub open spec fn thickened_from(
    source: Seq<u8>,
    target: Seq<u8>,
    rows: Seq<PushPackIndexRow>,
    bases: Seq<FixThinBase>,
    algo: HashAlgo,
) -> bool {
    let body_end = rows_end(rows, rows.len() as int);
    let packed_end = target.len() - algo.spec_len();
    let body = target.take(packed_end);
    let added = target.subrange(body_end, packed_end);
    let count = rows.len() + bases.len();
    &&& 12 <= body_end <= source.len()
    &&& body_end <= packed_end
    &&& header_announces(source.take(12), rows.len() as int)
    &&& spans_tile(rows, body_end)
    &&& count <= u32::MAX
    &&& base_entries(bases, added)
    &&& body == thickened(source, body_end, count as u32, added)
    &&& target.skip(packed_end) == digest_of(algo, body)
}

/// What a successful rewrite says of the source and target bytes.
pub open spec fn fixed_from<X: StructuralParser>(
    fixed: FixedThinPack,
    plan: FixThinPlan,
    validated: ValidatedPushPack,
    source: Seq<u8>,
    target: Seq<u8>,
    algo: HashAlgo,
    options: FixThinOptions,
) -> bool {
    let rows = validated.index@;
    let body_end = rows_end(rows, rows.len() as int);
    let packed_end = target.len() - algo.spec_len();
    &&& thickened_from(source, target, rows, plan.spec_bases(), algo)
    &&& target.len() <= plan.spec_output_bound()
    &&& validated_from::<X>(fixed.validated, target, options.limits)
    &&& fixed.validated.attestation.self_contained
    &&& fixed.validated.attestation.object_count == rows.len() + plan.spec_bases().len()
    &&& fixed.validated.attestation.pack_checksum@ == target.skip(packed_end)
    &&& fixed.plan_fingerprint == plan.spec_fingerprint()
    &&& fixed.report.copied_entry_bytes == body_end - 12
    &&& fixed.report.added_base_bytes == plan.spec_added_bytes()
    &&& fixed.report.added_packed_bytes == packed_end - body_end
    &&& fixed.report.output_pack_bytes == target.len()
    &&& fixed.report.source_reads == 1 + chunk_count(
        body_end - 12,
        options.source_chunk_bytes as int,
    )
    &&& fixed.report.base_reads == base_ranges(
        plan.spec_bases(),
        options.base_chunk_bytes as int,
    )
    &&& fixed.report.target_appends <= options.limits.max_object_operations
}

/// The replacement was sealed under a manifest of its own bytes, and then attested.
pub open spec fn sealed_and_attested(
    before: Seq<QuarantineStep>,
    after: Seq<QuarantineStep>,
    fence: QuarantineFence,
    fixed: FixedThinPack,
    algo: HashAlgo,
    metadata_bytes: int,
) -> bool {
    let checksum = fixed.validated.attestation.pack_checksum;
    let manifest = QuarantineManifest {
        hash_algo: algo,
        pack_bytes: fixed.report.output_pack_bytes,
        object_count: fixed.validated.attestation.object_count,
        pack_checksum: Some(checksum),
        metadata_bytes: metadata_bytes as u64,
        self_contained: false,
        index_checksum: None,
    };
    exists|sealed: QuarantineFence|
        after == #[trigger] before.push(
            QuarantineStep::Sealed { fence, checksum, manifest, sealed },
        ).push(
            QuarantineStep::Attested {
                fence: sealed,
                attestation: fixed.validated.attestation,
                attested: fixed.validated.fence,
            },
        )
}

/// Everything known before a rewrite starts.
struct RewriteScope {
    algo: HashAlgo,
    metadata_bytes: u64,
    trailer_start: u64,
    total_count: u32,
}

/// Source, plan and target belong together.
pub open spec fn rewrite_ready(
    plan: FixThinPlan,
    validated: ValidatedPushPack,
    source: QuarantineSnapshot,
    target: QuarantineSnapshot,
    target_fence: QuarantineFence,
    options: FixThinOptions,
) -> bool {
    &&& exists|manifest: QuarantineManifest| #[trigger]
        source_bound(validated, source, manifest) && manifest.pack_bytes
            >= manifest.hash_algo.spec_len() && spans_tile(
            validated.index@,
            manifest.pack_bytes - manifest.hash_algo.spec_len(),
        )
    &&& plan_bound(plan, validated, source, options)
    &&& target_bound(plan, source, target, target_fence)
}

/// Check source, plan, target and spans.
fn open_rewrite(
    plan: &FixThinPlan,
    validated: &ValidatedPushPack,
    source: &QuarantineSnapshot,
    target: &QuarantineSnapshot,
    target_fence: QuarantineFence,
    options: &FixThinOptions,
) -> (result: Result<RewriteScope, FixThinError>)
    ensures
        result is Ok ==> {
            let scope = result->Ok_0;
            let rows = validated.index@;
            &&& scope.trailer_start >= 12
            &&& scope.trailer_start == rows_end(rows, rows.len() as int)
            &&& scope.trailer_start + scope.algo.spec_len() <= u64::MAX
            &&& spans_tile(rows, scope.trailer_start as int)
            &&& scope.total_count == rows.len() + plan.spec_bases().len()
            &&& source.manifest is Some
            &&& scope.metadata_bytes == source.manifest->0.metadata_bytes
            &&& scope.algo == source.manifest->0.hash_algo
            &&& rewrite_ready(*plan, *validated, *source, *target, target_fence, *options)
        },
        result is Err && !rewrite_ready(*plan, *validated, *source, *target, target_fence, *options)
            ==> result->Err_0 == FixThinError::InvalidBinding,
        result is Err && rewrite_ready(*plan, *validated, *source, *target, target_fence, *options)
            ==> result->Err_0 == FixThinError::Limit && validated.index@.len()
            + plan.spec_bases().len() > u32::MAX,
{
    let manifest = validate_source(validated, source)?;
    validate_plan(plan, validated, source, options)?;
    validate_target(plan, source, target, target_fence)?;
    validate_entry_spans(&validated.index, &manifest)?;
    let trailer_start: u64 = manifest.pack_bytes - manifest.hash_algo.len() as u64;
    let source_count: usize = validated.index.len();
    let base_count: usize = plan.bases.len();
    if base_count > u32::MAX as usize - source_count {
        return Err(FixThinError::Limit);
    }
    proof {
        lemma_rows_end(validated.index@, trailer_start as int);
    }
    Ok(
        RewriteScope {
            algo: manifest.hash_algo,
            metadata_bytes: manifest.metadata_bytes,
            trailer_start,
            total_count: (source_count + base_count) as u32,
        },
    )
}

/// What writing a replacement came to.
struct RewriteOutcome {
    pack_checksum: ObjectId,
    output_pack_bytes: u64,
    source_reads: u64,
    base_reads: u64,
    target_appends: u64,
}

/// Write header, source entries, bases and checksum.
fn write_replacement<
    S: PackQuarantine,
    T: PackQuarantine,
    P: AuthorizedThinBaseProvider,
    W: FixThinWork,
    C: FixThinControl,
>(
    plan: &FixThinPlan,
    validated: &ValidatedPushPack,
    scope: &RewriteScope,
    source: &mut S,
    target: &mut T,
    target_fence: QuarantineFence,
    provider: &mut P,
    options: &FixThinOptions,
    work: &mut W,
    control: &mut C,
    last_observed_at: &mut Timestamp,
) -> (result: Result<RewriteOutcome, FixThinError>)
    requires
        seen_at::<C>(*options, *old(last_observed_at)),
        options.valid(),
        scope.trailer_start >= 12,
        scope.trailer_start == rows_end(validated.index@, validated.index@.len() as int),
        spans_tile(validated.index@, scope.trailer_start as int),
        scope.total_count == validated.index@.len() + plan.spec_bases().len(),
    ensures
        final(target).steps() == old(target).steps(),
        seen_at::<C>(*options, *final(last_observed_at)),
        writes_under(target_fence, old(target).writes(), final(target).writes()),
        final(target).ranges() == old(target).ranges(),
        reads_under(validated.fence, old(source).ranges(), final(source).ranges()),
        result matches Err(error) ==> replacing_explained::<S, T, P, W, C>(
            validated.fence,
            target_fence,
            scope.algo,
            *plan,
            validated.index@,
            old(source).content(),
            final(target).content(),
            final(target).writes().len() - old(target).writes().len(),
            *options,
            error,
        ),
        result is Ok ==> bases_read::<P, W, C>(*plan, *options),
        final(source).content() == old(source).content(),
        final(source).steps() == old(source).steps(),
        final(source).writes() == old(source).writes(),
        result is Ok ==> {
            let outcome = result->Ok_0;
            let written = final(target).content();
            &&& thickened_from(
                old(source).content(),
                written,
                validated.index@,
                plan.spec_bases(),
                scope.algo,
            )
            &&& outcome.output_pack_bytes == written.len()
            &&& written.len() <= plan.spec_output_bound()
            &&& outcome.pack_checksum@ == written.skip(written.len() - scope.algo.spec_len())
            &&& outcome.source_reads == 1 + chunk_count(
                scope.trailer_start - 12,
                options.source_chunk_bytes as int,
            )
            &&& outcome.base_reads == base_ranges(
                plan.spec_bases(),
                options.base_chunk_bytes as int,
            )
            &&& outcome.target_appends <= options.limits.max_object_operations
            &&& outcome.target_appends == final(target).writes().len() - old(target).writes().len()
        },
{
    let ghost content = source.content();
    let source_header: Vec<u8> = match source.read_range(validated.fence, 0, 12) {
        Ok(bytes) => bytes,
        Err(_) => {
            return Err(FixThinError::Quarantine);
        },
    };
    checkpoint(options, work, control, last_observed_at, 1)?;
    if source_header.len() == 12 {
        assert(source_header@ =~= content.take(12));
    }
    let header: Vec<u8> = rewrite_pack_header(
        source_header.as_slice(),
        validated.index.len(),
        scope.total_count,
    )?;
    let mut writer = RewriteWriter {
        fence: target_fence,
        offset: 0,
        maximum: options.limits.max_pack_bytes,
        appends: 0,
        maximum_appends: options.limits.max_object_operations,
        maximum_chunk: options.output_chunk_bytes,
        hasher: StreamHasher::new(scope.algo),
        start: Ghost(target.writes().len()),
    };
    proof {
        crate::bytes::lemma_be_bytes_len(scope.total_count as int, 4);
        assert(header@.len() == 12);
    }
    writer.append_hashed(target, header.as_slice(), options, work, control, last_observed_at)?;
    checkpoint(options, work, control, last_observed_at, 1)?;
    assert(Seq::<u8>::empty() + header@ =~= header@);
    let source_reads: u64 = copy_source_entries(
        &mut writer,
        source,
        target,
        validated.fence,
        scope.trailer_start,
        options,
        work,
        control,
        last_observed_at,
    )?;
    let ghost copied = writer.hasher.absorbed();
    proof {
        crate::bytes::lemma_be_bytes_len(scope.total_count as int, 4);
        assert(copied =~= header@ + content.subrange(12, scope.trailer_start as int));
    }
    let base_reads: u64 = write_direct_bases(
        &mut writer,
        target,
        plan,
        provider,
        options,
        work,
        control,
        last_observed_at,
    )?;
    if writer.offset > plan.output_upper_bound {
        return Err(FixThinError::Limit);
    }
    let ghost body = writer.hasher.absorbed();
    let mut pack_hasher = StreamHasher::new(scope.algo);
    std::mem::swap(&mut pack_hasher, &mut writer.hasher);
    let pack_checksum: ObjectId = pack_hasher.finish();
    let trailer: Vec<u8> = pack_checksum.to_bytes();
    proof {
        crate::object::lemma_id_len(pack_checksum);
    }
    writer.append_unhashed(
        target,
        trailer.as_slice(),
        options,
        work,
        control,
        last_observed_at,
        Ghost(body),
    )?;
    checkpoint(options, work, control, last_observed_at, 1)?;
    if writer.offset > plan.output_upper_bound {
        return Err(FixThinError::Limit);
    }
    proof {
        let written = target.content();
        crate::object::lemma_id_len(pack_checksum);
        lemma_thickened(
            content,
            written,
            validated.index@,
            plan.spec_bases(),
            scope.algo,
            header@,
            body,
            pack_checksum@,
        );
        assert(written.skip(written.len() - scope.algo.spec_len()) =~= pack_checksum@);
    }
    Ok(
        RewriteOutcome {
            pack_checksum,
            output_pack_bytes: writer.offset,
            source_reads,
            base_reads,
            target_appends: writer.appends,
        },
    )
}

/// Header, copied entries, bases and checksum make up the thickened PACK.
proof fn lemma_thickened(
    source: Seq<u8>,
    target: Seq<u8>,
    rows: Seq<PushPackIndexRow>,
    bases: Seq<FixThinBase>,
    algo: HashAlgo,
    header: Seq<u8>,
    body: Seq<u8>,
    checksum: Seq<u8>,
)
    requires
        ({
            let body_end = rows_end(rows, rows.len() as int);
            let copied = header + source.subrange(12, body_end);
            &&& 12 <= body_end <= source.len()
            &&& header_announces(source.take(12), rows.len() as int)
            &&& spans_tile(rows, body_end)
            &&& rows.len() + bases.len() <= u32::MAX
            &&& header == recounted_header(source.take(12), (rows.len() + bases.len()) as u32)
            &&& header.len() == 12
            &&& copied.len() <= body.len()
            &&& body.take(copied.len() as int) == copied
            &&& base_entries(bases, body.skip(copied.len() as int))
            &&& checksum == digest_of(algo, body)
            &&& checksum.len() == algo.spec_len()
            &&& target == body + checksum
        }),
    ensures
        thickened_from(source, target, rows, bases, algo),
{
    let body_end = rows_end(rows, rows.len() as int);
    let copied = header + source.subrange(12, body_end);
    let packed_end = target.len() - algo.spec_len();
    assert(packed_end == body.len());
    assert(target.take(packed_end) =~= body);
    assert(target.skip(packed_end) =~= checksum);
    assert(target.subrange(body_end, packed_end) =~= body.skip(copied.len() as int));
    let added = body.skip(copied.len() as int);
    assert(body =~= copied + added) by {
        assert forall|i: int| 0 <= i < copied.len() implies body[i] == copied[i] by {
            assert(body.take(copied.len() as int)[i] == copied[i]);
        }
    }
}

/// The replacement has too many entries, or its structure takes too much memory.
pub open spec fn outgrows(
    plan: FixThinPlan,
    rows: Seq<PushPackIndexRow>,
    metadata_bytes: int,
    options: FixThinOptions,
) -> bool {
    ||| rows.len() + plan.spec_bases().len() > u32::MAX
    ||| metadata_bytes + structural_bytes(plan.spec_bases())
        > options.limits.max_metadata_memory_bytes
}

/// Rewrite a thin PACK into a distinct empty quarantine and validate the result completely.
#[verifier::rlimit(60)]
pub fn rewrite_fix_thin_pack<
    S: PackQuarantine,
    T: PackQuarantine,
    P: AuthorizedThinBaseProvider,
    X: StructuralParser,
    W: FixThinWork,
    C: FixThinControl,
>(
    plan: &FixThinPlan,
    validated: ValidatedPushPack,
    source: &mut S,
    target: &mut T,
    target_fence: QuarantineFence,
    provider: &mut P,
    parser: &mut X,
    options: FixThinOptions,
    work: &mut W,
    control: &mut C,
) -> (result: Result<FixedThinPack, FixThinError>)
    ensures
        final(source).content() == old(source).content(),
        final(source).steps() == old(source).steps(),
        final(source).writes() == old(source).writes(),
        reads_under(validated.fence, old(source).ranges(), final(source).ranges()),
        writes_under(target_fence, old(target).writes(), final(target).writes()),
        final(target).steps() == old(target).steps() ==> final(target).ranges()
            == old(target).ranges(),
        final(target).steps() != old(target).steps() ==> {
            &&& final(target).steps()[old(target).steps().len() as int] matches QuarantineStep::Sealed {
                sealed,
                ..
            }
            &&& reads_under(sealed, old(target).ranges(), final(target).ranges())
        },
        !options.valid() ==> result is Err && result->Err_0 == FixThinError::InvalidLimits
            && final(target).content() == old(target).content(),
        !rewrite_ready(
            *plan,
            validated,
            old(source).described(),
            old(target).described(),
            target_fence,
            options,
        ) && options.valid() ==> result is Err && result->Err_0 == FixThinError::InvalidBinding
            && final(target).content() == old(target).content(),
        result is Ok ==> {
            &&& bases_read::<P, W, C>(*plan, options)
            &&& cleared::<W, C>(options, 1)
            &&& cleared::<W, C>(
                options,
                (validated.index@.len() + plan.spec_bases().len()) as u64,
            )
        },
        match result {
            Ok(fixed) => {
                let manifest = old(source).described().manifest->0;
                &&& fixed_from::<X>(
                    fixed,
                    *plan,
                    validated,
                    old(source).content(),
                    final(target).content(),
                    manifest.hash_algo,
                    options,
                )
                &&& fixed.report.target_appends == final(target).writes().len()
                    - old(target).writes().len()
                &&& final(target).described().manifest == Some(fixed.manifest)
                &&& sealed_and_attested(
                    old(target).steps(),
                    final(target).steps(),
                    target_fence,
                    fixed,
                    manifest.hash_algo,
                    manifest.metadata_bytes + structural_bytes(plan.spec_bases()),
                )
            },
            Err(error) => if options.valid() {
                &&& final(target).steps() == old(target).steps() ==> {
                    ||| replacing_explained::<S, T, P, W, C>(
                        validated.fence,
                        target_fence,
                        old(source).described().manifest->0.hash_algo,
                        *plan,
                        validated.index@,
                        old(source).content(),
                        final(target).content(),
                        final(target).writes().len() - old(target).writes().len(),
                        options,
                        error,
                    )
                    ||| interrupted::<W, C>(
                        options,
                        (validated.index@.len() + plan.spec_bases().len()) as u64,
                        error,
                    )
                    ||| error == FixThinError::Quarantine && unsealed::<T>(target_fence)
                    ||| error == FixThinError::InvalidBinding && !rewrite_ready(
                        *plan,
                        validated,
                        old(source).described(),
                        old(target).described(),
                        target_fence,
                        options,
                    )
                    ||| error == FixThinError::Limit && outgrows(
                        *plan,
                        validated.index@,
                        old(source).described().manifest->0.metadata_bytes as int,
                        options,
                    )
                }
                &&& final(target).steps() != old(target).steps() ==> final(target).steps().len()
                    > old(target).steps().len() && sealed_explained::<T, X, W, C>(
                    *final(target),
                    final(target).steps()[old(target).steps().len() as int],
                    (validated.index@.len() + plan.spec_bases().len()) as int,
                    options,
                    error,
                )
            } else {
                error == FixThinError::InvalidLimits
            },
        },
{
    if let Err(error) = options.validate() {
        return Err(error);
    }
    let mut last_observed_at: Timestamp = options.started_at;
    let source_snapshot = source.snapshot();
    let target_snapshot = target.snapshot();
    let scope = open_rewrite(
        plan,
        &validated,
        &source_snapshot,
        &target_snapshot,
        target_fence,
        &options,
    )?;
    checkpoint(&options, work, control, &mut last_observed_at, scope.total_count as u64)?;
    let outcome = write_replacement(
        plan,
        &validated,
        &scope,
        source,
        target,
        target_fence,
        provider,
        &options,
        work,
        control,
        &mut last_observed_at,
    )?;
    let pack_checksum: ObjectId = outcome.pack_checksum;
    let structural: u64 = added_structural_bytes(&plan.bases)?;
    let metadata_bytes: u64 = match scope.metadata_bytes.checked_add(structural) {
        Some(bytes) => bytes,
        None => {
            return Err(FixThinError::Limit);
        },
    };
    if metadata_bytes > options.limits.max_metadata_memory_bytes {
        return Err(FixThinError::Limit);
    }
    let manifest = QuarantineManifest {
        hash_algo: scope.algo,
        pack_bytes: outcome.output_pack_bytes,
        object_count: scope.total_count,
        pack_checksum: Some(pack_checksum),
        metadata_bytes,
        self_contained: false,
        index_checksum: None,
    };
    let finished_fence: QuarantineFence = match target.finish(
        target_fence,
        pack_checksum,
        manifest,
    ) {
        Ok(fence) => fence,
        Err(_) => {
            return Err(FixThinError::Quarantine);
        },
    };
    let ghost place = old(target).steps().len() as int;
    assert(target.steps()[place] == (QuarantineStep::Sealed {
        fence: target_fence,
        checksum: pack_checksum,
        manifest,
        sealed: finished_fence,
    }));
    checkpoint(&options, work, control, &mut last_observed_at, 1)?;
    let revalidated = validate_replacement(
        target,
        finished_fence,
        parser,
        &options,
        work,
        control,
        last_observed_at,
    )?;
    if !revalidated.attestation.self_contained || revalidated.attestation.pack_checksum
        != pack_checksum || revalidated.attestation.object_count != scope.total_count {
        assert(replacement_differs::<X>(
            revalidated,
            target.content(),
            options.limits,
            (validated.index@.len() + plan.spec_bases().len()) as int,
            target.steps()[old(target).steps().len() as int],
        ));
        return Err(FixThinError::InvalidBinding);
    }
    let final_manifest = match target.snapshot().manifest {
        Some(manifest) => manifest,
        None => {
            return Err(FixThinError::InvalidBinding);
        },
    };
    let width: u64 = scope.algo.len() as u64;
    let fixed = FixedThinPack {
        validated: revalidated,
        manifest: final_manifest,
        report: FixThinReport {
            copied_entry_bytes: scope.trailer_start - 12,
            added_base_bytes: plan.added_base_bytes,
            added_packed_bytes: outcome.output_pack_bytes - width - scope.trailer_start,
            output_pack_bytes: outcome.output_pack_bytes,
            source_reads: outcome.source_reads,
            base_reads: outcome.base_reads,
            target_appends: outcome.target_appends,
        },
        plan_fingerprint: plan.fingerprint,
    };
    assert(sealed_and_attested(
        old(target).steps(),
        target.steps(),
        target_fence,
        fixed,
        scope.algo,
        source_snapshot.manifest->0.metadata_bytes + structural_bytes(plan.spec_bases()),
    ));
    assert(fixed_from::<X>(
        fixed,
        *plan,
        validated,
        old(source).content(),
        target.content(),
        scope.algo,
        options,
    ));
    Ok(fixed)
}

/// Tiled rows reach from the header to the end of the body.
proof fn lemma_rows_end(rows: Seq<PushPackIndexRow>, body_end: int)
    requires
        spans_tile(rows, body_end),
    ensures
        body_end >= 12,
{
    lemma_rows_advance(rows, body_end, rows.len() as int);
}

/// Each tiled row ends behind the header.
proof fn lemma_rows_advance(rows: Seq<PushPackIndexRow>, body_end: int, count: int)
    requires
        spans_tile(rows, body_end),
        0 <= count <= rows.len(),
    ensures
        rows_end(rows, count) >= 12,
    decreases count,
{
    if count > 0 {
        lemma_rows_advance(rows, body_end, count - 1);
        assert(row_spans(rows[count - 1], count - 1, rows_end(rows, count - 1), body_end));
    }
}

/// Validate the replacement completely, with no external base allowed.
fn validate_replacement<
    T: PackQuarantine,
    X: StructuralParser,
    W: FixThinWork,
    C: FixThinControl,
>(
    target: &mut T,
    fence: QuarantineFence,
    parser: &mut X,
    options: &FixThinOptions,
    work: &mut W,
    control: &mut C,
    last_observed_at: Timestamp,
) -> (result: Result<ValidatedPushPack, FixThinError>)
    ensures
        reads_under(fence, old(target).ranges(), final(target).ranges()),
        final(target).writes() == old(target).writes(),
        result matches Err(error) ==> replacement_explained::<T, X>(
            old(target).content(),
            fence,
            *options,
            error,
        ),
        final(target).content() == old(target).content(),
        final(target).steps().len() >= old(target).steps().len(),
        forall|i: int|
            0 <= i < old(target).steps().len() ==> #[trigger] final(target).steps()[i]
                == old(target).steps()[i],
        result matches Ok(validated) ==> final(target).steps() == old(target).steps().push(
            QuarantineStep::Attested {
                fence,
                attestation: validated.attestation,
                attested: validated.fence,
            },
        ),
        result is Ok ==> validated_from::<X>(
            result->Ok_0,
            old(target).content(),
            options.limits,
        ),
{
    let mut bases = NoAuthorizedPushBases;
    let mut validation_work = ValidationWorkAdapter(work);
    let mut validation_control = ValidationControlAdapter {
        control,
        last_observed_at,
        rollback_detected: false,
    };
    let validation_options = PushPackValidationOptions {
        limits: options.limits,
        range_chunk_bytes: options.source_chunk_bytes,
        max_index_bytes: options.limits.max_metadata_memory_bytes,
        started_at: options.started_at,
        deadline: options.deadline,
    };
    let ghost snapshot = target.described();
    let result = validate_quarantined_pack(
        target,
        fence,
        &mut bases,
        parser,
        &mut validation_control,
        &mut validation_work,
        validation_options,
    );
    if validation_control.rollback_detected {
        return Err(FixThinError::Deadline);
    }
    match result {
        Ok(validated) => Ok(validated),
        Err(error) => {
            proof {
                if pack_refused::<NoAuthorizedPushBases, X>(
                    snapshot,
                    old(target).content(),
                    validation_options,
                    error,
                ) {
                    law_refusals_are_about_bytes::<NoAuthorizedPushBases, X>(
                        snapshot,
                        old(target).content(),
                        validation_options,
                        error,
                    );
                }
            }
            assert(mapped_error(error) == FixThinError::Validation(error)
                ==> replacement_refused::<X>(
                snapshot,
                fence,
                old(target).content(),
                *options,
                error,
            ));
            Err(map_validation_error(error))
        },
    }
}

} // verus!
