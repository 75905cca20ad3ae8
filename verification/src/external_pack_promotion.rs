//! Bounded promotion of validated push PACKs into an external store, with transactional storage as
//! the visibility boundary.
//!
//! The store creates a content-addressed final object from bounded parts, and only if it is absent.
//! Only verified metadata, the index and a retry receipt are installed. An orphan record that is
//! written first makes bytes reclaimable if the promotion stops half way.

use crate::budget::{spends, work_kept};
use crate::admission::text_bytes;
use crate::bytes::{copy_range, same_bytes, text_chars};
use crate::clock::Timestamp;
use crate::digest::{hash_bytes, hashed_id};
use crate::object::{HashAlgo, ObjectId, RepositoryId, TenantId};
use crate::pack_promotion::{
    binding_of, check_bindings, check_distinct, convert_index, evidence_of, index_fits,
    index_memory, next_range, pack_of, testify, trailer_agrees, BodyDigest, PromotionBinding,
    PromotionScope, PromotionTarget, StoredPack, StoredPackMetadata,
};
use crate::pg_pack_promotion::{
    PgPackPromotionInstallError, PgPackPromotionReceipt, PgPackPromotionStage,
    PgPackPromotionStorage,
};
use crate::push_metrics::ReceivePackLimits;
use crate::push_pack_validation::{PushPackIndexRow, ValidatedPushPack};
use crate::push_parallel_validation::rows_distinct;
use crate::push_prepared::PreparedPush;
use crate::push_quarantine::{
    reads_under, unreadable, PackQuarantine, QuarantineFence, QuarantineId, QuarantineSnapshot,
};
use vstd::prelude::*;
use vstd::utf8::encode_utf8;

verus! {

/// Most bytes of a provider version.
pub const MAX_PROVIDER_VERSION_BYTES: usize = 4_096;

/// Most bytes of a store name.
pub const MAX_BACKEND_NAME_BYTES: usize = 256;

/// Most bytes of an object key.
pub const MAX_STORAGE_KEY_BYTES: usize = 4_096;

/// Least bytes of a part that is not the last.
pub const MIN_NONFINAL_PART_BYTES: u64 = 5_242_880;

/// Most bytes of a part.
pub const MAX_PART_BYTES: u64 = 5_368_709_120;

/// Most parts of an upload.
pub const MAX_MULTIPART_PARTS: u32 = 10_000;

/// External promotion failure.
#[derive(Clone, Copy, Debug, PartialEq, Eq, Structural)]
pub enum ExternalPackPromotionError {
    /// Limits are zero, inconsistent, or above a ceiling.
    InvalidLimits,
    /// Bindings disagree.
    Binding,
    /// Metadata exceeds its bound.
    MetadataLimit,
    /// A bounded buffer could not be reserved.
    Allocation,
    /// The work budget is exhausted.
    WorkBudget,
    /// Cancellation was observed.
    Cancelled,
    /// The deadline elapsed, or observed time moved backwards.
    Deadline,
    /// A quarantine read failed.
    Quarantine,
    /// The bytes do not match their checksum.
    Checksum,
    /// Final metadata is missing or malformed.
    ProviderMetadata,
    /// The store failed, and no exact final object resolves it.
    Provider,
    /// Stored content differs.
    Collision,
    /// The repository generation changed.
    StaleGeneration,
    /// Transactional storage failed.
    Backend,
}

/// Opaque immutable version of a stored object.
pub struct ExternalPackObjectVersion {
    bytes: Vec<u8>,
}

impl View for ExternalPackObjectVersion {
    type V = Seq<u8>;

    closed spec fn view(&self) -> Seq<u8> {
        self.bytes@
    }
}

impl ExternalPackObjectVersion {
    /// Construct a nonempty bounded version.
    pub fn new(bytes: Vec<u8>) -> (result: Result<Self, ExternalPackPromotionError>)
        ensures
            match result {
                Ok(version) => 0 < bytes@.len() <= MAX_PROVIDER_VERSION_BYTES && version@
                    == bytes@,
                Err(error) => !(0 < bytes@.len() <= MAX_PROVIDER_VERSION_BYTES) && error
                    == ExternalPackPromotionError::ProviderMetadata,
            },
    {
        if bytes.len() == 0 || bytes.len() > MAX_PROVIDER_VERSION_BYTES {
            return Err(ExternalPackPromotionError::ProviderMetadata);
        }
        Ok(ExternalPackObjectVersion { bytes })
    }

    /// Borrow the opaque bytes.
    pub fn as_bytes(&self) -> (bytes: &[u8])
        ensures
            bytes@ == self@,
    {
        self.bytes.as_slice()
    }
}

/// Metadata of a stored final object.
pub struct ExternalPackObject {
    /// Complete PACK bytes.
    pub size_bytes: u64,
    /// PACK checksum that the store verified.
    pub content_checksum: ObjectId,
    /// Immutable version.
    pub version: ExternalPackObjectVersion,
}

impl ExternalPackObject {
    /// Both describe the same object.
    pub open spec fn same_as(self, other: ExternalPackObject) -> bool {
        &&& self.size_bytes == other.size_bytes
        &&& self.content_checksum == other.content_checksum
        &&& self.version@ == other.version@
    }

    /// Return whether both describe the same object.
    pub fn same(&self, other: &ExternalPackObject) -> (same: bool)
        ensures
            same == self.same_as(*other),
    {
        self.size_bytes == other.size_bytes && self.content_checksum == other.content_checksum
            && same_bytes(self.version.as_bytes(), other.version.as_bytes())
    }
}

/// Plan of one conditional upload.
#[derive(Clone, Copy, Debug, PartialEq, Eq, Structural)]
pub struct ExternalPackUploadPlan {
    /// Complete final bytes.
    pub size_bytes: u64,
    /// Expected PACK checksum.
    pub content_checksum: ObjectId,
    /// Maximum bytes of one part.
    pub part_bytes: usize,
    /// Maximum parts of one call.
    pub maximum_in_flight_parts: usize,
    /// Maximum parts.
    pub maximum_parts: u32,
}

/// One positional part.
#[derive(Debug)]
pub struct ExternalPackPart {
    /// One-based ordinal.
    pub ordinal: u32,
    /// Offset in the final object.
    pub offset: u64,
    /// Checksum of the part's bytes.
    pub checksum: ObjectId,
    /// Bytes.
    pub bytes: Vec<u8>,
}

/// Outcome of beginning an upload.
pub enum ExternalPackPromotionBegin<U> {
    /// An object already has the key.
    Existing(ExternalPackObject),
    /// A fresh upload may receive parts.
    Upload(U),
}

/// A store operation failed.
#[derive(Clone, Copy, Debug, PartialEq, Eq, Structural)]
pub struct ExternalPackProviderError;

/// Conditional upload session.
pub trait ExternalPackPromotionUpload: Sized {
    /// The batches submitted so far.
    closed spec fn submitted(&self) -> Seq<Seq<ExternalPackPart>> {
        Seq::empty()
    }

    /// A submission or a finalization may fail.
    closed spec fn fails() -> bool {
        true
    }

    /// The finalization of what was submitted may be answered so.
    closed spec fn completes(
        batches: Seq<Seq<ExternalPackPart>>,
        answer: Result<ExternalPackObject, ExternalPackProviderError>,
    ) -> bool {
        true
    }

    /// A session that was given these batches may be aborted.
    closed spec fn aborts(batches: Seq<Seq<ExternalPackPart>>) -> bool {
        true
    }

    /// Submit a batch of consecutive parts.
    fn upload_parts(&mut self, parts: Vec<ExternalPackPart>) -> (result: Result<
        (),
        ExternalPackProviderError,
    >)
        ensures
            final(self).submitted() == old(self).submitted().push(parts@),
            result is Err ==> Self::fails(),
    ;

    /// Finalize the object if its key is absent; a failure leaves open whether it was.
    fn complete(self) -> (result: Result<ExternalPackObject, ExternalPackProviderError>)
        ensures
            result is Err ==> Self::fails(),
            Self::completes(self.submitted(), result),
    ;

    /// Abort the session, never deleting a final object.
    fn abort(self) -> (result: Result<(), ExternalPackProviderError>)
        ensures
            Self::aborts(self.submitted()),
    ;
}

/// One step that a promotion takes outside.
pub enum ExternalPromotionEvent {
    /// An orphan record was handed over.
    Orphan(ExternalPromotionOrphan),
    /// An upload was begun.
    Begin(Seq<char>, ExternalPackUploadPlan),
    /// A stage was handed over.
    Install(PgPackPromotionStage),
}

/// Store of final objects.
pub trait ExternalPackPromotionStore {
    /// Upload session.
    type Upload: ExternalPackPromotionUpload;

    /// The steps taken so far.
    closed spec fn events(&self) -> Seq<ExternalPromotionEvent> {
        Seq::empty()
    }

    /// An inspection may be answered so.
    closed spec fn inspects(
        key: Seq<char>,
        answer: Result<Option<ExternalPackObject>, ExternalPackProviderError>,
    ) -> bool {
        true
    }

    /// An object may be found to have the key already.
    closed spec fn finds(
        key: Seq<char>,
        plan: ExternalPackUploadPlan,
        object: ExternalPackObject,
    ) -> bool {
        true
    }

    /// An upload may be refused.
    closed spec fn refuses(key: Seq<char>, plan: ExternalPackUploadPlan) -> bool {
        true
    }

    /// Inspect a final object.
    fn inspect_final(&self, key: &str) -> (answer: Result<
        Option<ExternalPackObject>,
        ExternalPackProviderError,
    >)
        ensures
            Self::inspects(key@, answer),
    ;

    /// Begin an upload, or return the object that has the key.
    fn begin_create_if_absent(&mut self, key: &str, plan: &ExternalPackUploadPlan) -> (result:
        Result<ExternalPackPromotionBegin<Self::Upload>, ExternalPackProviderError>)
        ensures
            final(self).events() == old(self).events().push(
                ExternalPromotionEvent::Begin(key@, *plan),
            ),
            result matches Ok(ExternalPackPromotionBegin::Upload(upload))
                ==> upload.submitted().len() == 0,
            result matches Ok(ExternalPackPromotionBegin::Existing(object)) ==> Self::finds(
                key@,
                *plan,
                object,
            ),
            result is Err ==> Self::refuses(key@, *plan),
    ;
}

/// The store refuses the upload, fails to take or finalize it, or fails an inspection.
pub open spec fn provider_failed<B: ExternalPackPromotionStore>(
    key: Seq<char>,
    plan: ExternalPackUploadPlan,
) -> bool {
    ||| B::refuses(key, plan)
    ||| B::Upload::fails()
    ||| B::inspects(key, Err(ExternalPackProviderError))
}

/// An inspection of the key found the planned object in this version.
pub open spec fn version_inspected<B: ExternalPackPromotionStore>(
    key: Seq<char>,
    plan: ExternalPackUploadPlan,
    version: Seq<u8>,
) -> bool {
    exists|object: ExternalPackObject| #[trigger]
        B::inspects(key, Ok(Some(object))) && object_exact(object, plan) && object.version@
            == version
}

/// One observation of time and cancellation.
#[derive(Clone, Copy, Debug, PartialEq, Eq, Structural)]
pub struct ExternalPackPromotionObservation {
    /// Observed time.
    pub observed_at: Timestamp,
    /// Cancellation.
    pub cancelled: bool,
}

/// Source of observations.
pub trait ExternalPackPromotionControl {
    /// The source may make this observation.
    closed spec fn observes(observation: ExternalPackPromotionObservation) -> bool {
        true
    }

    /// Return the latest observation.
    fn observe(&mut self) -> (observation: ExternalPackPromotionObservation)
        ensures
            Self::observes(observation),
    ;
}

/// Work budget.
pub trait ExternalPackPromotionWork {
    /// A charge may be answered so.
    closed spec fn answers(units: u64, charged: bool) -> bool {
        true
    }

    /// Units left, where the budget counts them.
    closed spec fn allowance(&self) -> Option<nat> {
        None
    }

    /// Charge work units; `false` means that the budget is exhausted.
    fn charge(&mut self, units: u64) -> (charged: bool)
        ensures
            Self::answers(units, charged),
            spends(old(self).allowance(), final(self).allowance(), units, charged),
    ;
}

/// Counter-based work budget.
#[derive(Clone, Copy, Debug, PartialEq, Eq, Structural)]
pub struct ExternalPackPromotionWorkLimit {
    remaining: u64,
}

impl ExternalPackPromotionWorkLimit {
    /// Units left.
    pub closed spec fn left(self) -> u64 {
        self.remaining
    }

    /// Create an exact allowance.
    pub fn new(units: u64) -> (limit: Self)
        ensures
            limit.left() == units,
    {
        ExternalPackPromotionWorkLimit { remaining: units }
    }

    /// Return the units left.
    pub fn remaining(&self) -> (units: u64)
        ensures
            units == self.left(),
    {
        self.remaining
    }
}

impl ExternalPackPromotionWork for ExternalPackPromotionWorkLimit {
    /// A charge of nothing is never refused.
    open spec fn answers(units: u64, charged: bool) -> bool {
        charged || units > 0
    }

    /// What is left.
    open spec fn allowance(&self) -> Option<nat> {
        Some(self.left() as nat)
    }

    fn charge(&mut self, units: u64) -> (charged: bool)
        ensures
            charged == (units <= old(self).left()),
            final(self).left() == if charged {
                (old(self).left() - units) as u64
            } else {
                old(self).left()
            },
    {
        if units > self.remaining {
            return false;
        }
        self.remaining = self.remaining - units;
        true
    }
}

/// Bounds of an external promotion.
#[derive(Clone, Copy, Debug, PartialEq, Eq, Structural)]
pub struct ExternalPackPromotionLimits {
    /// Maximum PACK bytes.
    pub max_pack_bytes: u64,
    /// Maximum index bytes.
    pub max_index_bytes: u64,
    /// Maximum bytes of one part.
    pub part_bytes: usize,
    /// Maximum parts of one call.
    pub maximum_in_flight_parts: usize,
    /// Maximum parts.
    pub maximum_parts: u32,
    /// Start time.
    pub started_at: Timestamp,
    /// Deadline.
    pub deadline: Timestamp,
    /// Earliest time at which the final object may be swept as an orphan.
    pub orphan_not_before: Timestamp,
}

impl ExternalPackPromotionLimits {
    /// The bounds may be used.
    pub open spec fn valid(self) -> bool {
        let hard = ReceivePackLimits::spec_hard_max();
        &&& 0 < self.max_pack_bytes <= hard.max_pack_bytes
        &&& 0 < self.max_index_bytes <= hard.max_metadata_memory_bytes
        &&& 0 < self.part_bytes <= MAX_PART_BYTES
        &&& 0 < self.maximum_in_flight_parts
        &&& self.part_bytes * self.maximum_in_flight_parts <= hard.bytes_in_flight
        &&& 0 < self.maximum_parts <= MAX_MULTIPART_PARTS
        &&& self.started_at.unix_nanos < self.deadline.unix_nanos
        &&& self.deadline.unix_nanos - self.started_at.unix_nanos <= hard.max_duration.nanos
        &&& self.deadline.unix_nanos <= self.orphan_not_before.unix_nanos
    }

    /// Validate the bounds.
    pub fn validate(self) -> (result: Result<Self, ExternalPackPromotionError>)
        ensures
            result == if self.valid() {
                Ok::<Self, ExternalPackPromotionError>(self)
            } else {
                Err(ExternalPackPromotionError::InvalidLimits)
            },
    {
        let hard = ReceivePackLimits::hard_max();
        proof {
            assert(self.part_bytes * self.maximum_in_flight_parts <= 0xffff_ffff_ffff_ffff
                * 0xffff_ffff_ffff_ffff) by (nonlinear_arith)
                requires
                    0 <= self.part_bytes <= 0xffff_ffff_ffff_ffff,
                    0 <= self.maximum_in_flight_parts <= 0xffff_ffff_ffff_ffff,
            ;
            assert(self.part_bytes > 0 && self.maximum_in_flight_parts > 0 ==> self.part_bytes
                <= self.part_bytes * self.maximum_in_flight_parts) by (nonlinear_arith);
        }
        let in_flight: u128 = (self.part_bytes as u128) * (self.maximum_in_flight_parts as u128);
        if self.max_pack_bytes == 0 || self.max_pack_bytes > hard.max_pack_bytes
            || self.max_index_bytes == 0 || self.max_index_bytes > hard.max_metadata_memory_bytes
            || self.part_bytes == 0 || self.part_bytes as u64 > hard.bytes_in_flight
            || self.part_bytes as u64 > MAX_PART_BYTES || self.maximum_in_flight_parts == 0
            || in_flight > hard.bytes_in_flight as u128 || self.maximum_parts == 0
            || self.maximum_parts > MAX_MULTIPART_PARTS || self.deadline.unix_nanos
            <= self.started_at.unix_nanos || self.orphan_not_before.unix_nanos
            < self.deadline.unix_nanos {
            return Err(ExternalPackPromotionError::InvalidLimits);
        }
        match self.deadline.unix_nanos.checked_sub(self.started_at.unix_nanos) {
            Some(span) => {
                if span as u128 > hard.max_duration.nanos {
                    return Err(ExternalPackPromotionError::InvalidLimits);
                }
                Ok(self)
            },
            None => Err(ExternalPackPromotionError::InvalidLimits),
        }
    }
}

/// Configuration of the external store.
#[derive(Debug)]
pub struct ExternalStorageOptions {
    /// Whether packs are written to the store.
    pub write_packs_externally: bool,
    /// Store name.
    pub backend_name: String,
    /// Prefix of object keys.
    pub key_prefix: String,
}

/// Record that makes a final object reclaimable.
#[derive(Debug)]
pub struct ExternalPromotionOrphan {
    /// Owning tenant.
    pub tenant: TenantId,
    /// Owning repository.
    pub repository: RepositoryId,
    /// Store name.
    pub backend_name: String,
    /// Object key.
    pub storage_key: String,
    /// Source quarantine.
    pub quarantine_id: QuarantineId,
    /// Fenced quarantine generation.
    pub quarantine_generation: u64,
    /// Fingerprint of the prepared metadata.
    pub prepared_fingerprint: ObjectId,
    /// Trailing checksum.
    pub pack_checksum: ObjectId,
    /// Complete PACK bytes.
    pub size_bytes: u64,
    /// Immutable version, once known.
    pub storage_version: Option<Vec<u8>>,
    /// Checksum of the object, once known.
    pub storage_checksum: Option<ObjectId>,
    /// Earliest time at which the object may be swept.
    pub not_before: Timestamp,
}

/// Transactional storage beside a store of final objects.
pub trait ExternalPackPromotionBackend: ExternalPackPromotionStore {
    /// A pack may be given this object key.
    closed spec fn names(
        tenant: Seq<char>,
        repository: Seq<char>,
        pack_checksum: ObjectId,
        key: Seq<char>,
    ) -> bool {
        true
    }

    /// Return the object key of a pack.
    fn pack_key(
        &self,
        tenant: &TenantId,
        repository: &RepositoryId,
        pack_checksum: ObjectId,
    ) -> (key: String)
        ensures
            Self::names(tenant@, repository@, pack_checksum, key@),
    ;

    /// An orphan record may be answered so.
    closed spec fn registers(
        orphan: ExternalPromotionOrphan,
        answer: Result<(), PgPackPromotionInstallError>,
    ) -> bool {
        true
    }

    /// The last stage handed over was answered this way.
    closed spec fn answered(
        &self,
        stage: PgPackPromotionStage,
        answer: Result<PgPackPromotionReceipt, PgPackPromotionInstallError>,
    ) -> bool {
        true
    }

    /// Store an orphan record.
    fn register_external_promotion_orphan(&mut self, orphan: ExternalPromotionOrphan) -> (result:
        Result<(), PgPackPromotionInstallError>)
        ensures
            final(self).events() == old(self).events().push(
                ExternalPromotionEvent::Orphan(orphan),
            ),
            Self::registers(orphan, result),
    ;

    /// Install a stage in one transaction.
    fn install_promoted_push_pack(&mut self, stage: PgPackPromotionStage) -> (result: Result<
        PgPackPromotionReceipt,
        PgPackPromotionInstallError,
    >)
        ensures
            final(self).events() == old(self).events().push(ExternalPromotionEvent::Install(stage)),
            final(self).answered(stage, result),
    ;
}

/// The promotion's name for an installation failure.
pub open spec fn external_install_error(error: PgPackPromotionInstallError) -> (
    ExternalPackPromotionError) {
    match error {
        PgPackPromotionInstallError::StaleGeneration => ExternalPackPromotionError::StaleGeneration,
        PgPackPromotionInstallError::Collision => ExternalPackPromotionError::Collision,
        PgPackPromotionInstallError::Backend => ExternalPackPromotionError::Backend,
    }
}

/// Map an installation failure.
pub fn map_install_error(error: PgPackPromotionInstallError) -> (mapped: ExternalPackPromotionError)
    ensures
        mapped == external_install_error(error),
{
    match error {
        PgPackPromotionInstallError::StaleGeneration => ExternalPackPromotionError::StaleGeneration,
        PgPackPromotionInstallError::Collision => ExternalPackPromotionError::Collision,
        PgPackPromotionInstallError::Backend => ExternalPackPromotionError::Backend,
    }
}

/// The time is that of the start or of an observation.
pub open spec fn seen_at<C: ExternalPackPromotionControl>(
    limits: ExternalPackPromotionLimits,
    time: Timestamp,
) -> bool {
    time == limits.started_at || exists|observation: ExternalPackPromotionObservation| #[trigger]
        C::observes(observation) && observation.observed_at == time
}

/// The observation lies outside the run, or before an earlier time of it.
pub open spec fn untimely<C: ExternalPackPromotionControl>(
    limits: ExternalPackPromotionLimits,
    observation: ExternalPackPromotionObservation,
) -> bool {
    ||| observation.observed_at.unix_nanos < limits.started_at.unix_nanos
    ||| observation.observed_at.unix_nanos >= limits.deadline.unix_nanos
    ||| exists|time: Timestamp| #[trigger]
        seen_at::<C>(limits, time) && observation.observed_at.unix_nanos < time.unix_nanos
}

/// A checkpoint stopped the run from outside: its charge was refused, or its observation was
/// cancelled or untimely.
pub open spec fn interrupted<W: ExternalPackPromotionWork, C: ExternalPackPromotionControl>(
    limits: ExternalPackPromotionLimits,
    units: u64,
    error: ExternalPackPromotionError,
) -> bool {
    ||| error == ExternalPackPromotionError::WorkBudget && W::answers(units, false)
    ||| error == ExternalPackPromotionError::Cancelled
        && exists|observation: ExternalPackPromotionObservation| #[trigger]
        C::observes(observation) && observation.cancelled
    ||| error == ExternalPackPromotionError::Deadline
        && exists|observation: ExternalPackPromotionObservation| #[trigger]
        C::observes(observation) && untimely::<C>(limits, observation)
}

/// A checkpoint let the run go on: it was observed in time and not cancelled, and the units were
/// granted.
pub open spec fn cleared<W: ExternalPackPromotionWork, C: ExternalPackPromotionControl>(
    limits: ExternalPackPromotionLimits,
    units: u64,
) -> bool {
    &&& W::answers(units, true)
    &&& exists|observation: ExternalPackPromotionObservation| #[trigger]
        C::observes(observation) && !observation.cancelled && limits.started_at.unix_nanos
            <= observation.observed_at.unix_nanos < limits.deadline.unix_nanos
}

/// Accept one observation: time never goes back, and the run is neither cancelled nor over.
pub fn accept_observation(
    observation: ExternalPackPromotionObservation,
    limits: &ExternalPackPromotionLimits,
    last_observed_at: &mut Timestamp,
) -> (result: Result<(), ExternalPackPromotionError>)
    ensures
        result == if observation.observed_at.unix_nanos < old(last_observed_at).unix_nanos {
            Err::<(), ExternalPackPromotionError>(ExternalPackPromotionError::Deadline)
        } else if observation.cancelled {
            Err(ExternalPackPromotionError::Cancelled)
        } else if observation.observed_at.unix_nanos < limits.started_at.unix_nanos
            || observation.observed_at.unix_nanos >= limits.deadline.unix_nanos {
            Err(ExternalPackPromotionError::Deadline)
        } else {
            Ok(())
        },
        *final(last_observed_at) == if observation.observed_at.unix_nanos < old(last_observed_at).unix_nanos {
            *old(last_observed_at)
        } else {
            observation.observed_at
        },
{
    if observation.observed_at.unix_nanos < last_observed_at.unix_nanos {
        return Err(ExternalPackPromotionError::Deadline);
    }
    *last_observed_at = observation.observed_at;
    if observation.cancelled {
        return Err(ExternalPackPromotionError::Cancelled);
    }
    if observation.observed_at.unix_nanos < limits.started_at.unix_nanos
        || observation.observed_at.unix_nanos >= limits.deadline.unix_nanos {
        return Err(ExternalPackPromotionError::Deadline);
    }
    Ok(())
}

/// Observe time and cancellation, then charge units.
fn checkpoint<W: ExternalPackPromotionWork, C: ExternalPackPromotionControl>(
    limits: &ExternalPackPromotionLimits,
    work: &mut W,
    control: &mut C,
    last_observed_at: &mut Timestamp,
    units: u64,
) -> (result: Result<(), ExternalPackPromotionError>)
    requires
        seen_at::<C>(*limits, *old(last_observed_at)),
    ensures
        seen_at::<C>(*limits, *final(last_observed_at)),
        match result {
            Ok(()) => cleared::<W, C>(*limits, units),
            Err(error) => interrupted::<W, C>(*limits, units, error),
        },
        work_kept(
            old(work).allowance(),
            final(work).allowance(),
            result is Err && result->Err_0 == ExternalPackPromotionError::WorkBudget,
            units as int,
        ),
{
    let observation = control.observe();
    accept_observation(observation, limits, last_observed_at)?;
    if !work.charge(units) {
        return Err(ExternalPackPromotionError::WorkBudget);
    }
    Ok(())
}

/// The parts between slashes.
pub open spec fn segments(path: Seq<char>) -> Seq<Seq<char>>
    decreases path.len(),
{
    if path.len() == 0 {
        seq![Seq::empty()]
    } else {
        let before = segments(path.drop_last());
        if path.last() == '/' {
            before.push(Seq::empty())
        } else {
            before.drop_last().push(before.last().push(path.last()))
        }
    }
}

/// A letter, a digit, a dash, an underscore or a dot.
pub open spec fn key_char(letter: char) -> bool {
    ('a' <= letter && letter <= 'z') || ('A' <= letter && letter <= 'Z') || ('0' <= letter
        && letter <= '9') || letter == '-' || letter == '_' || letter == '.'
}

/// A part of a key prefix: not empty, not a relative step, of plain characters.
pub open spec fn key_segment(segment: Seq<char>) -> bool {
    &&& segment.len() > 0
    &&& segment != seq!['.']
    &&& segment != seq!['.', '.']
    &&& forall|i: int| 0 <= i < segment.len() ==> key_char(#[trigger] segment[i])
}

/// The place of the first character that is not a slash.
pub open spec fn first_plain(text: Seq<char>, at: int) -> int
    decreases text.len() - at,
{
    if 0 <= at < text.len() && text[at] == '/' {
        first_plain(text, at + 1)
    } else {
        at
    }
}

/// The place after the last character from `from` on that is not a slash.
pub open spec fn last_plain(text: Seq<char>, from: int, end: int) -> int
    decreases end - from,
{
    if from < end <= text.len() && text[end - 1] == '/' {
        last_plain(text, from, end - 1)
    } else {
        end
    }
}

/// The text without slashes at its ends.
pub open spec fn without_slashes(text: Seq<char>) -> Seq<char> {
    let from = first_plain(text, 0);
    text.subrange(from, last_plain(text, from, text.len() as int))
}

/// A usable key prefix: empty, or plain parts between slashes.
pub open spec fn key_prefix_fits(prefix: Seq<char>) -> bool {
    prefix.len() == 0 || {
        let trimmed = without_slashes(prefix);
        &&& trimmed.len() > 0
        &&& forall|i: int|
            0 <= i < segments(trimmed).len() ==> key_segment(#[trigger] segments(trimmed)[i])
    }
}

/// The trimmed ends stay in order.
proof fn lemma_plain_ends(text: Seq<char>, from: int, end: int)
    requires
        0 <= from <= end <= text.len(),
    ensures
        from <= last_plain(text, from, end) <= end,
    decreases end - from,
{
    if from < end && text[end - 1] == '/' {
        lemma_plain_ends(text, from, end - 1);
    }
}

/// There is always at least one part.
proof fn lemma_segments_some(path: Seq<char>)
    ensures
        segments(path).len() > 0,
    decreases path.len(),
{
    if path.len() > 0 {
        lemma_segments_some(path.drop_last());
    }
}

/// Return whether a character may stand in a key.
fn is_key_char(letter: char) -> (fits: bool)
    ensures
        fits == key_char(letter),
{
    ('a' <= letter && letter <= 'z') || ('A' <= letter && letter <= 'Z') || ('0' <= letter && letter
        <= '9') || letter == '-' || letter == '_' || letter == '.'
}

/// Return whether a part may stand in a key.
fn is_key_segment(segment: &Vec<char>) -> (fits: bool)
    ensures
        fits == key_segment(segment@),
{
    if segment.len() == 0 {
        return false;
    }
    if segment.len() == 1 && segment[0] == '.' {
        assert(segment@ =~= seq!['.']);
        return false;
    }
    if segment.len() == 2 && segment[0] == '.' && segment[1] == '.' {
        assert(segment@ =~= seq!['.', '.']);
        return false;
    }
    let mut at: usize = 0;
    while at < segment.len()
        invariant
            at <= segment@.len(),
            forall|i: int| 0 <= i < at ==> key_char(#[trigger] segment@[i]),
        decreases segment.len() - at,
    {
        if !is_key_char(segment[at]) {
            assert(!key_char(segment@[at as int]));
            return false;
        }
        at = at + 1;
    }
    true
}

/// Return whether a key prefix may be used.
pub fn valid_key_prefix(prefix: &String) -> (fits: bool)
    ensures
        fits == key_prefix_fits(prefix@),
{
    let chars: Vec<char> = text_chars(prefix);
    if chars.len() == 0 {
        return true;
    }
    let mut from: usize = 0;
    while from < chars.len() && chars[from] == '/'
        invariant
            from <= chars@.len(),
            first_plain(chars@, 0) == first_plain(chars@, from as int),
        decreases chars.len() - from,
    {
        from = from + 1;
    }
    let mut end: usize = chars.len();
    while from < end && chars[end - 1] == '/'
        invariant
            from <= end <= chars@.len(),
            last_plain(chars@, from as int, chars@.len() as int) == last_plain(
                chars@,
                from as int,
                end as int,
            ),
        decreases end - from,
    {
        end = end - 1;
    }
    let ghost trimmed = chars@.subrange(from as int, end as int);
    assert(trimmed == without_slashes(prefix@));
    if from == end {
        return false;
    }
    let mut segment: Vec<char> = Vec::new();
    let mut at: usize = from;
    let ghost mut done: Seq<Seq<char>> = Seq::empty();
    assert(trimmed.take(0) =~= Seq::<char>::empty());
    assert(segments(trimmed.take(0)) =~= done.push(segment@));
    while at < end
        invariant
            from <= at <= end <= chars@.len(),
            trimmed == chars@.subrange(from as int, end as int),
            segments(trimmed.take(at - from)) == done.push(segment@),
            forall|i: int| 0 <= i < done.len() ==> key_segment(#[trigger] done[i]),
            prefix@.len() > 0,
            trimmed == without_slashes(prefix@),
        decreases end - at,
    {
        let letter: char = chars[at];
        let ghost front = trimmed.take(at - from);
        let ghost more = trimmed.take(at - from + 1);
        proof {
            assert(more.drop_last() =~= front);
            assert(more.last() == letter);
            assert(segments(front).last() == segment@);
            assert(segments(front).drop_last() =~= done);
        }
        if letter == '/' {
            if !is_key_segment(&segment) {
                proof {
                    lemma_segment_stays(trimmed, at - from, done.len() as int);
                    assert(segments(trimmed)[done.len() as int] == segment@);
                }
                return false;
            }
            proof {
                done = done.push(segment@);
            }
            segment = Vec::new();
            assert(segments(more) =~= done.push(segment@));
        } else {
            segment.push(letter);
            assert(segments(more) =~= done.push(segment@));
        }
        at = at + 1;
    }
    assert(trimmed.take(end - from) =~= trimmed);
    let fits: bool = is_key_segment(&segment);
    proof {
        let all = segments(trimmed);
        assert(all.last() == segment@);
        if fits {
            assert forall|i: int| 0 <= i < all.len() implies key_segment(#[trigger] all[i]) by {
                if i < done.len() {
                    assert(all[i] == done[i]);
                }
            }
        } else {
            assert(!key_segment(all[done.len() as int]));
        }
    }
    fits
}

/// A part that a slash has ended stays as it is.
proof fn lemma_segment_stays(path: Seq<char>, at: int, index: int)
    requires
        0 <= at < path.len(),
        path[at] == '/',
        index == segments(path.take(at)).len() - 1,
    ensures
        index < segments(path).len(),
        segments(path)[index] == segments(path.take(at))[index],
    decreases path.len(),
{
    lemma_segments_some(path.take(at));
    let before = path.drop_last();
    if at == path.len() - 1 {
        assert(before =~= path.take(at));
    } else {
        assert(before.take(at) =~= path.take(at));
        lemma_segment_stays(before, at, index);
        lemma_later_segment(before, at);
    }
}

/// After a slash there is a further part.
proof fn lemma_later_segment(path: Seq<char>, at: int)
    requires
        0 <= at < path.len(),
        path[at] == '/',
    ensures
        segments(path).len() > segments(path.take(at)).len(),
    decreases path.len(),
{
    let before = path.drop_last();
    if at == path.len() - 1 {
        assert(before =~= path.take(at));
    } else {
        assert(before.take(at) =~= path.take(at));
        lemma_later_segment(before, at);
    }
}

/// The parts of every batch, in order.
pub open spec fn flat_parts(batches: Seq<Seq<ExternalPackPart>>) -> Seq<ExternalPackPart>
    decreases batches.len(),
{
    if batches.len() == 0 {
        Seq::empty()
    } else {
        flat_parts(batches.drop_last()) + batches.last()
    }
}

/// The bytes of every part, in order.
pub open spec fn joined(parts: Seq<ExternalPackPart>) -> Seq<u8>
    decreases parts.len(),
{
    if parts.len() == 0 {
        Seq::empty()
    } else {
        joined(parts.drop_last()) + parts.last().bytes@
    }
}

/// A part is the one of its place: numbered from one, at a multiple of the part size, with the
/// digest of its own bytes.
pub open spec fn part_placed(
    part: ExternalPackPart,
    place: int,
    content: Seq<u8>,
    plan: ExternalPackUploadPlan,
    algo: HashAlgo,
) -> bool {
    let end = part.offset + part.bytes@.len();
    &&& part.ordinal == place + 1
    &&& part.offset == place * plan.part_bytes
    &&& end <= plan.size_bytes
    &&& part.bytes@.len() == plan.part_bytes || end == plan.size_bytes
    &&& 0 < part.bytes@.len() <= plan.part_bytes
    &&& end <= content.len()
    &&& part.bytes@ == content.subrange(part.offset as int, end)
    &&& part.checksum == hashed_id(algo, part.bytes@)
}

/// Every part is the one of its place.
pub open spec fn parts_placed(
    parts: Seq<ExternalPackPart>,
    content: Seq<u8>,
    plan: ExternalPackUploadPlan,
    algo: HashAlgo,
) -> bool {
    forall|i: int| 0 <= i < parts.len() ==> part_placed(#[trigger] parts[i], i, content, plan, algo)
}

/// No batch is larger than the plan allows.
pub open spec fn batches_bounded(
    batches: Seq<Seq<ExternalPackPart>>,
    plan: ExternalPackUploadPlan,
) -> bool {
    forall|i: int|
        0 <= i < batches.len() ==> 0 < (#[trigger] batches[i]).len()
            <= plan.maximum_in_flight_parts
}

/// What an upload has been given is a front part of the PACK, cut as planned.
pub open spec fn upload_sound(
    batches: Seq<Seq<ExternalPackPart>>,
    content: Seq<u8>,
    plan: ExternalPackUploadPlan,
    algo: HashAlgo,
) -> bool {
    &&& parts_placed(flat_parts(batches), content, plan, algo)
    &&& batches_bounded(batches, plan)
}

/// What one checkpoint of the upload charges: one unit, or one for each byte of a part.
pub open spec fn part_charge(plan: ExternalPackUploadPlan, units: u64) -> bool {
    units == 1 || 0 < units <= plan.part_bytes && units <= plan.size_bytes
}

/// Stream the whole PACK to an upload in bounded batches of consecutive parts, and check its
/// trailer.
pub fn stream_parts<
    U: ExternalPackPromotionUpload,
    Q: PackQuarantine,
    W: ExternalPackPromotionWork,
    C: ExternalPackPromotionControl,
>(
    upload: &mut U,
    quarantine: &mut Q,
    fence: QuarantineFence,
    hash_algo: HashAlgo,
    plan: &ExternalPackUploadPlan,
    limits: &ExternalPackPromotionLimits,
    work: &mut W,
    control: &mut C,
    last_observed_at: &mut Timestamp,
) -> (result: Result<(), ExternalPackPromotionError>)
    requires
        seen_at::<C>(*limits, *old(last_observed_at)),
        old(upload).submitted().len() == 0,
        plan.part_bytes > 0,
        plan.maximum_in_flight_parts > 0,
    ensures
        seen_at::<C>(*limits, *final(last_observed_at)),
        final(quarantine).content() == old(quarantine).content(),
        final(quarantine).steps() == old(quarantine).steps(),
        reads_under(fence, old(quarantine).ranges(), final(quarantine).ranges()),
        upload_sound(final(upload).submitted(), old(quarantine).content(), *plan, hash_algo),
        work_kept(
            old(work).allowance(),
            final(work).allowance(),
            result is Err && result->Err_0 == ExternalPackPromotionError::WorkBudget,
            3 * plan.size_bytes,
        ),
        match result {
            Ok(_) => {
                let pack = old(quarantine).content().take(plan.size_bytes as int);
                &&& plan.size_bytes <= old(quarantine).content().len()
                &&& joined(flat_parts(final(upload).submitted())) == pack
                &&& trailer_agrees(pack, hash_algo, plan.content_checksum)
                &&& parts_cleared::<W, C>(flat_parts(final(upload).submitted()), *limits)
            },
            Err(error) => {
                ||| exists|units: u64| #[trigger]
                    interrupted::<W, C>(*limits, units, error) && part_charge(*plan, units)
                ||| error == ExternalPackPromotionError::Quarantine && unreadable::<Q>(fence)
                ||| error == ExternalPackPromotionError::Provider && U::fails()
                ||| error == ExternalPackPromotionError::MetadataLimit && flat_parts(
                    final(upload).submitted(),
                ).len() + plan.maximum_in_flight_parts >= u32::MAX
                ||| error == ExternalPackPromotionError::Binding && plan.size_bytes
                    < hash_algo.spec_len()
                ||| error == ExternalPackPromotionError::Checksum && plan.size_bytes <= old(quarantine).content().len() && !trailer_agrees(
                    old(quarantine).content().take(plan.size_bytes as int),
                    hash_algo,
                    plan.content_checksum,
                )
            },
        },
{
    let ghost content = quarantine.content();
    let mut digest = match BodyDigest::new(hash_algo, plan.size_bytes) {
        Some(digest) => digest,
        None => {
            return Err(ExternalPackPromotionError::Binding);
        },
    };
    let mut offset: u64 = 0;
    let mut ordinal: u32 = 1;
    assert(content.take(0) =~= Seq::<u8>::empty());
    while offset < plan.size_bytes
        invariant
            seen_at::<C>(*limits, *last_observed_at),
            plan.part_bytes > 0,
            plan.maximum_in_flight_parts > 0,
            content == old(quarantine).content(),
            quarantine.content() == content,
            quarantine.steps() == old(quarantine).steps(),
            reads_under(fence, old(quarantine).ranges(), quarantine.ranges()),
            upload_sound(upload.submitted(), content, *plan, hash_algo),
            work_kept(old(work).allowance(), work.allowance(), false, 3 * offset),
            ordinal == flat_parts(upload.submitted()).len() + 1,
            offset <= plan.size_bytes,
            offset <= content.len(),
            offset < plan.size_bytes ==> offset == (ordinal - 1) * plan.part_bytes,
            joined(flat_parts(upload.submitted())) == content.take(offset as int),
            parts_cleared::<W, C>(flat_parts(upload.submitted()), *limits),
            digest.wf(),
            digest.seen() == content.take(offset as int),
            digest.spec_total() == plan.size_bytes,
            digest.spec_algo() == hash_algo,
        decreases plan.size_bytes - offset,
    {
        let mut parts: Vec<ExternalPackPart> = Vec::new();
        let ghost batches = upload.submitted();
        let ghost sent = flat_parts(batches);
        let ghost start = offset;
        assert(sent + parts@ =~= sent);
        while parts.len() < plan.maximum_in_flight_parts && offset < plan.size_bytes
            invariant
                seen_at::<C>(*limits, *last_observed_at),
                plan.part_bytes > 0,
                content == old(quarantine).content(),
                quarantine.content() == content,
                quarantine.steps() == old(quarantine).steps(),
            reads_under(fence, old(quarantine).ranges(), quarantine.ranges()),
                upload.submitted() == batches,
                sent == flat_parts(batches),
                batches_bounded(batches, *plan),
                parts_placed(sent, content, *plan, hash_algo),
                parts_placed(sent + parts@, content, *plan, hash_algo),
                parts@.len() <= plan.maximum_in_flight_parts,
                start <= offset,
                work_kept(
                    old(work).allowance(),
                    work.allowance(),
                    false,
                    start + 2 * offset,
                ),
                parts@.len() == 0 ==> offset == start,
                parts@.len() > 0 ==> offset > start,
                ordinal == sent.len() + parts@.len() + 1,
                offset <= plan.size_bytes,
                offset <= content.len(),
                offset < plan.size_bytes ==> offset == (ordinal - 1) * plan.part_bytes,
                joined(sent + parts@) == content.take(offset as int),
                parts_cleared::<W, C>(sent + parts@, *limits),
                digest.wf(),
                digest.seen() == content.take(offset as int),
                digest.spec_total() == plan.size_bytes,
                digest.spec_algo() == hash_algo,
            decreases plan.size_bytes - offset,
        {
            let length: usize = next_range(plan.size_bytes, offset, plan.part_bytes);
            checkpoint(limits, work, control, last_observed_at, length as u64)?;
            let read = quarantine.read_range(fence, offset, length);
            let bytes: Vec<u8> = match read {
                Ok(bytes) => bytes,
                Err(_) => {
                    return Err(ExternalPackPromotionError::Quarantine);
                },
            };
            checkpoint(limits, work, control, last_observed_at, 1)?;
            if bytes.len() != length {
                return Err(ExternalPackPromotionError::Quarantine);
            }
            digest.update(bytes.as_slice());
            let checksum = hash_bytes(hash_algo, bytes.as_slice());
            let ghost all = sent + parts@;
            let ghost taken = bytes@;
            let part = ExternalPackPart { ordinal, offset, checksum, bytes };
            let ghost placed = part;
            parts.push(part);
            proof {
                let more = sent + parts@;
                assert(more =~= all.push(placed));
                assert(more.drop_last() =~= all);
                assert(content.take(offset as int) + taken =~= content.take(offset + length));
                assert(part_placed(placed, all.len() as int, content, *plan, hash_algo));
                assert forall|i: int| 0 <= i < more.len() implies cleared::<W, C>(
                    *limits,
                    (#[trigger] more[i]).bytes@.len() as u64,
                ) by {
                    if i < all.len() {
                        assert(more[i] == all[i]);
                    }
                }
                assert forall|i: int| 0 <= i < more.len() implies part_placed(
                    #[trigger] more[i],
                    i,
                    content,
                    *plan,
                    hash_algo,
                ) by {
                    if i < all.len() {
                        assert(more[i] == all[i]);
                    }
                }
                assert(ordinal * plan.part_bytes == (ordinal - 1) * plan.part_bytes
                    + plan.part_bytes) by (nonlinear_arith);
            }
            offset = offset + length as u64;
            if ordinal == u32::MAX {
                return Err(ExternalPackPromotionError::MetadataLimit);
            }
            ordinal = ordinal + 1;
        }
        let ghost batch = parts@;
        let submitted = upload.upload_parts(parts);
        proof {
            assert(upload.submitted().drop_last() =~= batches);
            assert(flat_parts(upload.submitted()) == sent + batch);
        }
        if submitted.is_err() {
            return Err(ExternalPackPromotionError::Provider);
        }
        checkpoint(limits, work, control, last_observed_at, 1)?;
    }
    if !digest.finish(plan.content_checksum) {
        return Err(ExternalPackPromotionError::Checksum);
    }
    Ok(())
}

/// A stored object is the planned one.
pub open spec fn object_exact(object: ExternalPackObject, plan: ExternalPackUploadPlan) -> bool {
    &&& object.size_bytes == plan.size_bytes
    &&& object.content_checksum == plan.content_checksum
    &&& 0 < object.version@.len() <= MAX_PROVIDER_VERSION_BYTES
}

/// Check a stored object against the plan.
pub fn verify_exact_object(object: ExternalPackObject, plan: &ExternalPackUploadPlan) -> (result:
    Result<ExternalPackObject, ExternalPackPromotionError>)
    ensures
        match result {
            Ok(kept) => kept == object && object_exact(object, *plan),
            Err(error) => !object_exact(object, *plan) && error
                == ExternalPackPromotionError::Collision,
        },
{
    let version: usize = object.version.as_bytes().len();
    if object.size_bytes != plan.size_bytes || object.content_checksum != plan.content_checksum
        || version == 0 || version > MAX_PROVIDER_VERSION_BYTES {
        return Err(ExternalPackPromotionError::Collision);
    }
    Ok(object)
}

/// Inspect a final object, which must be the planned one where there is one.
fn inspect_exact<B: ExternalPackPromotionStore>(
    provider: &B,
    key: &str,
    plan: &ExternalPackUploadPlan,
) -> (result: Result<Option<ExternalPackObject>, ExternalPackPromotionError>)
    ensures
        match result {
            Ok(Some(object)) => object_exact(object, *plan) && B::inspects(key@, Ok(Some(object))),
            Ok(None) => B::inspects(key@, Ok(None)),
            Err(error) => error == ExternalPackPromotionError::Provider && B::inspects(
                key@,
                Err(ExternalPackProviderError),
            ) || error == ExternalPackPromotionError::Collision && exists|
                object: ExternalPackObject,
            | #[trigger]
                object_told::<B>(key@, *plan, object) && !object_exact(object, *plan),
        },
{
    match provider.inspect_final(key) {
        Ok(Some(object)) => {
            assert(object_told::<B>(key@, *plan, object));
            match verify_exact_object(object, plan) {
                Ok(object) => Ok(Some(object)),
                Err(error) => Err(error),
            }
        },
        Ok(None) => Ok(None),
        Err(failure) => {
            assert(failure == ExternalPackProviderError);
            Err(ExternalPackPromotionError::Provider)
        },
    }
}

/// Parts that a PACK is cut into.
pub open spec fn part_count(size_bytes: u64, part_bytes: usize) -> int {
    if size_bytes as int % part_bytes as int == 0 {
        size_bytes as int / part_bytes as int
    } else {
        size_bytes as int / part_bytes as int + 1
    }
}

/// The PACK can be cut as the limits ask.
pub open spec fn parts_fit(size_bytes: u64, limits: ExternalPackPromotionLimits) -> bool {
    let count = part_count(size_bytes, limits.part_bytes);
    &&& 0 < count <= limits.maximum_parts
    &&& count > 1 ==> limits.part_bytes >= MIN_NONFINAL_PART_BYTES
}

/// Return whether the PACK can be cut as the limits ask.
pub fn check_parts(size_bytes: u64, limits: &ExternalPackPromotionLimits) -> (fits: bool)
    requires
        limits.part_bytes > 0,
    ensures
        fits == parts_fit(size_bytes, *limits),
{
    let part: u64 = limits.part_bytes as u64;
    let whole: u64 = size_bytes / part;
    assert(whole <= size_bytes) by (nonlinear_arith)
        requires
            whole == size_bytes / part,
            part > 0,
    ;
    let uneven: bool = size_bytes % part != 0;
    let most: u64 = limits.maximum_parts as u64;
    if uneven {
        whole < most && (whole == 0 || part >= MIN_NONFINAL_PART_BYTES)
    } else {
        whole > 0 && whole <= most && (whole == 1 || part >= MIN_NONFINAL_PART_BYTES)
    }
}

/// The store is configured for PACKs.
pub open spec fn options_fit(options: ExternalStorageOptions) -> bool {
    &&& options.write_packs_externally
    &&& 0 < encode_utf8(options.backend_name@).len() <= MAX_BACKEND_NAME_BYTES
    &&& key_prefix_fits(options.key_prefix@)
}

/// Return whether the store is configured for PACKs.
pub fn check_options(options: &ExternalStorageOptions) -> (fits: bool)
    ensures
        fits == options_fit(*options),
{
    let name: usize = text_bytes(&options.backend_name);
    options.write_packs_externally && name > 0 && name <= MAX_BACKEND_NAME_BYTES
        && valid_key_prefix(&options.key_prefix)
}

/// Why a promotion is refused before anything is done outside.
pub open spec fn external_fault(
    prepared: PreparedPush,
    validated: ValidatedPushPack,
    snapshot: QuarantineSnapshot,
    fence: QuarantineFence,
    options: ExternalStorageOptions,
    limits: ExternalPackPromotionLimits,
) -> Option<ExternalPackPromotionError> {
    match binding_of(prepared, validated, snapshot, fence, limits.max_pack_bytes) {
        PromotionBinding::Unbound => Some(ExternalPackPromotionError::Binding),
        PromotionBinding::TooManyRows => Some(ExternalPackPromotionError::MetadataLimit),
        PromotionBinding::Bound(target) => if !options_fit(options) {
            Some(ExternalPackPromotionError::Binding)
        } else if index_memory(validated.index@.len() as int) > limits.max_index_bytes || !parts_fit(
            target.manifest.pack_bytes,
            limits,
        ) {
            Some(ExternalPackPromotionError::MetadataLimit)
        } else {
            None
        },
    }
}

/// The target that the bindings agree on.
pub open spec fn external_target(
    prepared: PreparedPush,
    validated: ValidatedPushPack,
    snapshot: QuarantineSnapshot,
    fence: QuarantineFence,
    limits: ExternalPackPromotionLimits,
) -> PromotionTarget {
    binding_of(prepared, validated, snapshot, fence, limits.max_pack_bytes)->Bound_0
}

/// How the target is to be uploaded.
pub open spec fn upload_plan(
    target: PromotionTarget,
    limits: ExternalPackPromotionLimits,
) -> ExternalPackUploadPlan {
    ExternalPackUploadPlan {
        size_bytes: target.manifest.pack_bytes,
        content_checksum: target.pack_checksum,
        part_bytes: limits.part_bytes,
        maximum_in_flight_parts: limits.maximum_in_flight_parts,
        maximum_parts: limits.maximum_parts,
    }
}

/// The record covers the target's object under a key.
pub open spec fn orphan_covers(
    orphan: ExternalPromotionOrphan,
    prepared: PreparedPush,
    fence: QuarantineFence,
    target: PromotionTarget,
    options: ExternalStorageOptions,
    limits: ExternalPackPromotionLimits,
    key: Seq<char>,
) -> bool {
    &&& orphan.tenant@ == prepared.tenant@
    &&& orphan.repository@ == prepared.repository@
    &&& orphan.backend_name@ == options.backend_name@
    &&& orphan.storage_key@ == key
    &&& orphan.quarantine_id == fence.id
    &&& orphan.quarantine_generation == fence.generation
    &&& orphan.prepared_fingerprint == prepared.fingerprint
    &&& orphan.pack_checksum == target.pack_checksum
    &&& orphan.size_bytes == target.manifest.pack_bytes
    &&& orphan.not_before == limits.orphan_not_before
}

/// The stage describes the target's object under a key and a version, with its exact index.
pub open spec fn external_stage(
    stage: PgPackPromotionStage,
    prepared: PreparedPush,
    validated: ValidatedPushPack,
    fence: QuarantineFence,
    target: PromotionTarget,
    options: ExternalStorageOptions,
    key: Seq<char>,
    version: Seq<u8>,
) -> bool {
    &&& stage.scope.fits(prepared, fence, target)
    &&& pack_of(stage.pack, target, validated.index@, Seq::empty())
    &&& rows_distinct(validated.index@)
    &&& stage.storage matches PgPackPromotionStorage::External {
        backend_name,
        storage_key,
        storage_version,
        storage_checksum,
    }
    &&& backend_name@ == options.backend_name@
    &&& storage_key@ == key
    &&& storage_version@ == version
    &&& storage_checksum == target.pack_checksum
}

/// The steps of a promotion, as far as it came: an orphan record before anything is uploaded, the
/// upload, the record of a verified version, and the installation of that version.
pub open spec fn promotion_steps(
    steps: Seq<ExternalPromotionEvent>,
    prepared: PreparedPush,
    validated: ValidatedPushPack,
    fence: QuarantineFence,
    target: PromotionTarget,
    options: ExternalStorageOptions,
    limits: ExternalPackPromotionLimits,
) -> bool {
    let key = steps[0]->Orphan_0.storage_key@;
    let version = steps[2]->Orphan_0.storage_version->0@;
    &&& steps.len() <= 4
    &&& steps.len() >= 1 ==> {
        &&& steps[0] matches ExternalPromotionEvent::Orphan(orphan)
        &&& orphan_covers(orphan, prepared, fence, target, options, limits, key)
        &&& orphan.storage_version is None
        &&& orphan.storage_checksum is None
        &&& 0 < encode_utf8(key).len() <= MAX_STORAGE_KEY_BYTES
    }
    &&& steps.len() >= 2 ==> steps[1] == ExternalPromotionEvent::Begin(
        key,
        upload_plan(target, limits),
    )
    &&& steps.len() >= 3 ==> {
        &&& steps[2] matches ExternalPromotionEvent::Orphan(orphan)
        &&& orphan_covers(orphan, prepared, fence, target, options, limits, key)
        &&& orphan.storage_version is Some
        &&& 0 < version.len() <= MAX_PROVIDER_VERSION_BYTES
        &&& orphan.storage_checksum == Some(target.pack_checksum)
    }
    &&& steps.len() == 4 ==> {
        &&& steps[3] matches ExternalPromotionEvent::Install(stage)
        &&& external_stage(
            stage,
            prepared,
            validated,
            fence,
            target,
            options,
            key,
            version,
        )
    }
}

/// The work of every part was granted.
pub open spec fn parts_cleared<W: ExternalPackPromotionWork, C: ExternalPackPromotionControl>(
    parts: Seq<ExternalPackPart>,
    limits: ExternalPackPromotionLimits,
) -> bool {
    forall|i: int|
        0 <= i < parts.len() ==> cleared::<W, C>(limits, (#[trigger] parts[i]).bytes@.len() as u64)
}

/// The batches are the whole PACK, cut as planned, and the work of every part was granted.
pub open spec fn upload_taken<
    U: ExternalPackPromotionUpload,
    W: ExternalPackPromotionWork,
    C: ExternalPackPromotionControl,
>(
    batches: Seq<Seq<ExternalPackPart>>,
    content: Seq<u8>,
    plan: ExternalPackUploadPlan,
    algo: HashAlgo,
    limits: ExternalPackPromotionLimits,
) -> bool {
    let pack = content.take(plan.size_bytes as int);
    &&& plan.size_bytes <= content.len()
    &&& upload_sound(batches, content, plan, algo)
    &&& joined(flat_parts(batches)) == pack
    &&& trailer_agrees(pack, algo, plan.content_checksum)
    &&& parts_cleared::<W, C>(flat_parts(batches), limits)
}

/// How an object was obtained: it was there, before the upload or after a refusal; or the whole
/// PACK was uploaded and completed; or an upload that the store broke off was aborted, and the
/// object was there all the same.
pub open spec fn object_obtained<
    B: ExternalPackPromotionStore,
    W: ExternalPackPromotionWork,
    C: ExternalPackPromotionControl,
>(
    key: Seq<char>,
    plan: ExternalPackUploadPlan,
    content: Seq<u8>,
    algo: HashAlgo,
    limits: ExternalPackPromotionLimits,
    object: ExternalPackObject,
) -> bool {
    ||| B::refuses(key, plan)
    ||| exists|found: ExternalPackObject| #[trigger]
        B::finds(key, plan, found) && object.same_as(found)
    ||| exists|batches: Seq<Seq<ExternalPackPart>>|
        #[trigger] upload_taken::<B::Upload, W, C>(batches, content, plan, algo, limits)
            && upload_completed::<B>(batches, key, object)
    ||| B::Upload::fails() && exists|batches: Seq<Seq<ExternalPackPart>>, found: ExternalPackObject|
        #![trigger B::Upload::aborts(batches), B::inspects(key, Ok(Some(found)))]
        B::Upload::aborts(batches) && B::inspects(key, Ok(Some(found))) && object.same_as(found)
}

/// The upload was completed as this object, or its completion was left open and the object found.
pub open spec fn upload_completed<B: ExternalPackPromotionStore>(
    batches: Seq<Seq<ExternalPackPart>>,
    key: Seq<char>,
    object: ExternalPackObject,
) -> bool {
    ||| exists|completed: ExternalPackObject| #[trigger]
        B::Upload::completes(batches, Ok(completed)) && object.same_as(completed)
    ||| B::Upload::completes(batches, Err(ExternalPackProviderError)) && exists|
        found: ExternalPackObject,
    | #[trigger]
        B::inspects(key, Ok(Some(found))) && object.same_as(found)
}

/// The store spoke of this object under the key: it found it, or completed it, or inspected it.
pub open spec fn object_told<B: ExternalPackPromotionStore>(
    key: Seq<char>,
    plan: ExternalPackUploadPlan,
    object: ExternalPackObject,
) -> bool {
    ||| B::inspects(key, Ok(Some(object)))
    ||| B::finds(key, plan, object)
    ||| exists|batches: Seq<Seq<ExternalPackPart>>| #[trigger]
        B::Upload::completes(batches, Ok(object))
}

/// The session that was given a front part of the PACK was aborted.
pub open spec fn upload_aborted<U: ExternalPackPromotionUpload>(
    content: Seq<u8>,
    plan: ExternalPackUploadPlan,
    algo: HashAlgo,
) -> bool {
    exists|batches: Seq<Seq<ExternalPackPart>>| #[trigger]
        upload_sound(batches, content, plan, algo) && U::aborts(batches)
}

/// Where anything was read to be uploaded, the session that was given a front part of the PACK was
/// ended: it was aborted, or its completion was asked for.
pub open spec fn session_ended<U: ExternalPackPromotionUpload>(
    content: Seq<u8>,
    plan: ExternalPackUploadPlan,
    algo: HashAlgo,
    before: Seq<(QuarantineFence, u64, usize)>,
    after: Seq<(QuarantineFence, u64, usize)>,
) -> bool {
    ||| after == before
    ||| upload_aborted::<U>(content, plan, algo)
    ||| exists|
        batches: Seq<Seq<ExternalPackPart>>,
        answer: Result<ExternalPackObject, ExternalPackProviderError>,
    |
        #![trigger upload_sound(batches, content, plan, algo), U::completes(batches, answer)]
        upload_sound(batches, content, plan, algo) && U::completes(batches, answer)
}

/// Why no object was obtained. Whatever the reason, a session that anything was read for was ended,
/// and one whose stream failed was aborted.
pub open spec fn obtaining_failed<
    B: ExternalPackPromotionStore,
    Q: PackQuarantine,
    W: ExternalPackPromotionWork,
    C: ExternalPackPromotionControl,
>(
    key: Seq<char>,
    plan: ExternalPackUploadPlan,
    content: Seq<u8>,
    algo: HashAlgo,
    limits: ExternalPackPromotionLimits,
    fence: QuarantineFence,
    before: Seq<(QuarantineFence, u64, usize)>,
    after: Seq<(QuarantineFence, u64, usize)>,
    error: ExternalPackPromotionError,
) -> bool {
    &&& session_ended::<B::Upload>(content, plan, algo, before, after)
    &&& match error {
        ExternalPackPromotionError::WorkBudget
        | ExternalPackPromotionError::Cancelled
        | ExternalPackPromotionError::Deadline => {
            ||| interrupted::<W, C>(limits, 1, error)
            ||| upload_aborted::<B::Upload>(content, plan, algo) && exists|units: u64| #[trigger]
                interrupted::<W, C>(limits, units, error) && part_charge(plan, units)
        },
        ExternalPackPromotionError::Quarantine => unreadable::<Q>(fence) && upload_aborted::<
            B::Upload,
        >(content, plan, algo),
        ExternalPackPromotionError::Provider => provider_failed::<B>(key, plan),
        ExternalPackPromotionError::Checksum => plan.size_bytes <= content.len()
            && !trailer_agrees(
            content.take(plan.size_bytes as int),
            algo,
            plan.content_checksum,
        ) && upload_aborted::<B::Upload>(content, plan, algo),
        ExternalPackPromotionError::Binding => plan.size_bytes < algo.spec_len()
            && upload_aborted::<B::Upload>(content, plan, algo),
        ExternalPackPromotionError::MetadataLimit => exists|batches: Seq<Seq<ExternalPackPart>>|
            #[trigger]
            upload_sound(batches, content, plan, algo) && B::Upload::aborts(batches) && flat_parts(
                batches,
            ).len() + plan.maximum_in_flight_parts >= u32::MAX,
        ExternalPackPromotionError::Collision => exists|object: ExternalPackObject| #[trigger]
            object_told::<B>(key, plan, object) && !object_exact(object, plan),
        ExternalPackPromotionError::ProviderMetadata => {
            ||| B::inspects(key, Ok(None))
            ||| exists|one: ExternalPackObject, other: ExternalPackObject|
                #![trigger object_told::<B>(key, plan, one), object_told::<B>(key, plan, other)]
                object_told::<B>(key, plan, one) && object_told::<B>(key, plan, other)
                    && !one.same_as(other)
        },
        _ => false,
    }
}

/// Upload the PACK, or find that the planned object is there.
fn obtain_object<
    B: ExternalPackPromotionBackend,
    Q: PackQuarantine,
    W: ExternalPackPromotionWork,
    C: ExternalPackPromotionControl,
>(
    backend: &mut B,
    quarantine: &mut Q,
    fence: QuarantineFence,
    hash_algo: HashAlgo,
    key: &str,
    plan: &ExternalPackUploadPlan,
    limits: &ExternalPackPromotionLimits,
    work: &mut W,
    control: &mut C,
    last_observed_at: &mut Timestamp,
) -> (result: Result<ExternalPackObject, ExternalPackPromotionError>)
    requires
        seen_at::<C>(*limits, *old(last_observed_at)),
        plan.part_bytes > 0,
        plan.maximum_in_flight_parts > 0,
    ensures
        seen_at::<C>(*limits, *final(last_observed_at)),
        final(quarantine).content() == old(quarantine).content(),
        final(quarantine).steps() == old(quarantine).steps(),
        reads_under(fence, old(quarantine).ranges(), final(quarantine).ranges()),
        final(backend).events() == old(backend).events().push(
            ExternalPromotionEvent::Begin(key@, *plan),
        ) || (final(backend).events() == old(backend).events() && result is Err),
        work_kept(
            old(work).allowance(),
            final(work).allowance(),
            result is Err && result->Err_0 == ExternalPackPromotionError::WorkBudget,
            6 + 3 * plan.size_bytes,
        ),
        match result {
            Ok(object) => {
                &&& object_exact(object, *plan)
                &&& B::inspects(key@, Ok(Some(object)))
                &&& object_obtained::<B, W, C>(
                    key@,
                    *plan,
                    old(quarantine).content(),
                    hash_algo,
                    *limits,
                    object,
                )
                &&& cleared::<W, C>(*limits, 1)
            },
            Err(error) => obtaining_failed::<B, Q, W, C>(
                key@,
                *plan,
                old(quarantine).content(),
                hash_algo,
                *limits,
                fence,
                old(quarantine).ranges(),
                final(quarantine).ranges(),
                error,
            ),
        },
{
    let ghost content = quarantine.content();
    checkpoint(limits, work, control, last_observed_at, 1)?;
    let begin = match backend.begin_create_if_absent(key, plan) {
        Ok(begin) => begin,
        Err(_) => {
            let object = match inspect_exact(backend, key, plan)? {
                Some(object) => object,
                None => {
                    return Err(ExternalPackPromotionError::Provider);
                },
            };
            checkpoint(limits, work, control, last_observed_at, 1)?;
            return Ok(object);
        },
    };
    checkpoint(limits, work, control, last_observed_at, 1)?;
    let completed = match begin {
        ExternalPackPromotionBegin::Existing(object) => {
            assert(object_told::<B>(key@, *plan, object));
            verify_exact_object(object, plan)?
        },
        ExternalPackPromotionBegin::Upload(upload) => {
            let mut upload = upload;
            let streamed = stream_parts(
                &mut upload,
                quarantine,
                fence,
                hash_algo,
                plan,
                limits,
                work,
                control,
                last_observed_at,
            );
            let ghost batches = upload.submitted();
            match streamed {
                Err(error) => {
                    let _aborted = upload.abort();
                    assert(upload_aborted::<B::Upload>(content, *plan, hash_algo));
                    checkpoint(limits, work, control, last_observed_at, 1)?;
                    if error != ExternalPackPromotionError::Provider {
                        return Err(error);
                    }
                    let object = match inspect_exact(backend, key, plan)? {
                        Some(object) => object,
                        None => {
                            return Err(error);
                        },
                    };
                    checkpoint(limits, work, control, last_observed_at, 1)?;
                    object
                },
                Ok(_) => match upload.complete() {
                    Ok(object) => {
                        assert(upload_taken::<B::Upload, W, C>(
                            batches,
                            content,
                            *plan,
                            hash_algo,
                            *limits,
                        ));
                        assert(B::Upload::completes(batches, Ok(object)));
                        assert(object_told::<B>(key@, *plan, object));
                        checkpoint(limits, work, control, last_observed_at, 1)?;
                        verify_exact_object(object, plan)?
                    },
                    Err(failure) => {
                        assert(failure == ExternalPackProviderError);
                        assert(upload_taken::<B::Upload, W, C>(
                            batches,
                            content,
                            *plan,
                            hash_algo,
                            *limits,
                        ));
                        checkpoint(limits, work, control, last_observed_at, 1)?;
                        let object = match inspect_exact(backend, key, plan)? {
                            Some(object) => object,
                            None => {
                                return Err(ExternalPackPromotionError::Provider);
                            },
                        };
                        checkpoint(limits, work, control, last_observed_at, 1)?;
                        object
                    },
                },
            }
        },
    };
    checkpoint(limits, work, control, last_observed_at, 1)?;
    let inspected = match inspect_exact(backend, key, plan)? {
        Some(object) => object,
        None => {
            return Err(ExternalPackPromotionError::ProviderMetadata);
        },
    };
    checkpoint(limits, work, control, last_observed_at, 1)?;
    if !inspected.same(&completed) {
        proof {
            assert(object_told::<B>(key@, *plan, completed));
            assert(object_told::<B>(key@, *plan, inspected));
        }
        return Err(ExternalPackPromotionError::ProviderMetadata);
    }
    Ok(inspected)
}

/// Copy a version's bytes.
fn copy_version(version: &ExternalPackObjectVersion) -> (bytes: Vec<u8>)
    ensures
        bytes@ == version@,
{
    let bytes: Vec<u8> = copy_range(version.as_bytes(), 0, version.as_bytes().len());
    assert(bytes@ =~= version@);
    bytes
}

/// The last step was an installation, and it was answered with this receipt.
pub open spec fn receipt_answered<B: ExternalPackPromotionBackend>(
    backend: B,
    receipt: PgPackPromotionReceipt,
) -> bool {
    &&& backend.events().last() matches ExternalPromotionEvent::Install(stage)
    &&& backend.answered(stage, Ok(receipt))
}

/// Record a verified version, then install its metadata and index in one transaction.
fn finish_external_publication<
    B: ExternalPackPromotionBackend,
    W: ExternalPackPromotionWork,
    C: ExternalPackPromotionControl,
>(
    backend: &mut B,
    prepared: &PreparedPush,
    validated: &ValidatedPushPack,
    fence: QuarantineFence,
    target: PromotionTarget,
    options: &ExternalStorageOptions,
    storage_key: String,
    object: ExternalPackObject,
    limits: &ExternalPackPromotionLimits,
    work: &mut W,
    control: &mut C,
    last_observed_at: &mut Timestamp,
) -> (result: Result<PgPackPromotionReceipt, ExternalPackPromotionError>)
    requires
        seen_at::<C>(*limits, *old(last_observed_at)),
        old(backend).events().len() >= 2,
        object_exact(object, upload_plan(target, *limits)),
    ensures
        finish_steps(
            old(backend).events(),
            final(backend).events(),
            *prepared,
            *validated,
            fence,
            target,
            *options,
            *limits,
            storage_key@,
            object.version@,
        ),
        result matches Ok(receipt) ==> final(backend).events().len() == old(backend).events().len()
            + 2 && receipt_answered(*final(backend), receipt),
        result is Ok ==> cleared::<W, C>(*limits, validated.index@.len() as u64),
        work_kept(
            old(work).allowance(),
            final(work).allowance(),
            result is Err && result->Err_0 == ExternalPackPromotionError::WorkBudget,
            1 + validated.index@.len() as int,
        ),
        result matches Err(error) ==> finish_failed::<B, W, C>(
            *final(backend),
            final(backend).events()[old(backend).events().len() as int]->Orphan_0,
            final(backend).events().len() == old(backend).events().len() + 2,
            validated.index@,
            *limits,
            error,
        ),
{
    let ghost before = backend.events();
    let orphan = ExternalPromotionOrphan {
        tenant: prepared.tenant.clone(),
        repository: prepared.repository.clone(),
        backend_name: options.backend_name.clone(),
        storage_key: storage_key.clone(),
        quarantine_id: fence.id,
        quarantine_generation: fence.generation,
        prepared_fingerprint: prepared.fingerprint,
        pack_checksum: object.content_checksum,
        size_bytes: object.size_bytes,
        storage_version: Some(copy_version(&object.version)),
        storage_checksum: Some(object.content_checksum),
        not_before: limits.orphan_not_before,
    };
    let registered = backend.register_external_promotion_orphan(orphan);
    assert(backend.events().take(before.len() as int) =~= before);
    if let Err(error) = registered {
        return Err(map_install_error(error));
    }
    checkpoint(limits, work, control, last_observed_at, 1)?;
    checkpoint(limits, work, control, last_observed_at, validated.index.len() as u64)?;
    if !check_distinct(&validated.index) {
        return Err(ExternalPackPromotionError::Binding);
    }
    let index = convert_index(&validated.index);
    let pack = StoredPack {
        metadata: StoredPackMetadata {
            pack_checksum: object.content_checksum,
            index_checksum: target.index_checksum,
            object_count: target.object_count,
            size_bytes: object.size_bytes,
            storage_order: 0,
        },
        data: Vec::new(),
        index,
    };
    let stage = PgPackPromotionStage {
        scope: PromotionScope::of(prepared, fence, target),
        pack,
        storage: PgPackPromotionStorage::External {
            backend_name: options.backend_name.clone(),
            storage_key,
            storage_version: copy_version(&object.version),
            storage_checksum: object.content_checksum,
        },
    };
    let installed = backend.install_promoted_push_pack(stage);
    assert(backend.events().take(before.len() as int) =~= before);
    match installed {
        Ok(receipt) => Ok(receipt),
        Err(error) => Err(map_install_error(error)),
    }
}

/// Why recording or installing a verified object failed: a stop, a refused record, rows that
/// repeat an identity, or a refused installation.
pub open spec fn finish_failed<
    B: ExternalPackPromotionBackend,
    W: ExternalPackPromotionWork,
    C: ExternalPackPromotionControl,
>(
    backend: B,
    orphan: ExternalPromotionOrphan,
    installed: bool,
    rows: Seq<PushPackIndexRow>,
    limits: ExternalPackPromotionLimits,
    error: ExternalPackPromotionError,
) -> bool {
    if installed {
        exists|cause: PgPackPromotionInstallError|
            error == external_install_error(cause) && #[trigger] backend.answered(
                backend.events().last()->Install_0,
                Err(cause),
            )
    } else {
        ||| interrupted::<W, C>(limits, 1, error)
        ||| interrupted::<W, C>(limits, rows.len() as u64, error)
        ||| error == ExternalPackPromotionError::Binding && !rows_distinct(rows)
        ||| exists|cause: PgPackPromotionInstallError|
            error == external_install_error(cause) && #[trigger] B::registers(orphan, Err(cause))
    }
}

/// The last two steps of a promotion, as far as they came.
spec fn finish_steps(
    before: Seq<ExternalPromotionEvent>,
    after: Seq<ExternalPromotionEvent>,
    prepared: PreparedPush,
    validated: ValidatedPushPack,
    fence: QuarantineFence,
    target: PromotionTarget,
    options: ExternalStorageOptions,
    limits: ExternalPackPromotionLimits,
    key: Seq<char>,
    version: Seq<u8>,
) -> bool {
    let count = before.len() as int;
    &&& count + 1 <= after.len() <= count + 2
    &&& after.take(count) == before
    &&& after[count] matches ExternalPromotionEvent::Orphan(orphan)
    &&& orphan_covers(orphan, prepared, fence, target, options, limits, key)
    &&& orphan.storage_version is Some
    &&& orphan.storage_version->0@ == version
    &&& orphan.storage_checksum == Some(target.pack_checksum)
    &&& after.len() == count + 2 ==> {
        &&& after[count + 1] matches ExternalPromotionEvent::Install(stage)
        &&& external_stage(stage, prepared, validated, fence, target, options, key, version)
    }
}

/// Most units that a promotion takes: one for every byte, every part and every batch, one for every
/// index row, and one for each of the other checkpoints.
pub open spec fn promotion_work(
    prepared: PreparedPush,
    validated: ValidatedPushPack,
    snapshot: QuarantineSnapshot,
    fence: QuarantineFence,
    options: ExternalStorageOptions,
    limits: ExternalPackPromotionLimits,
) -> int {
    if external_fault(prepared, validated, snapshot, fence, options, limits) is None {
        8 + 3 * external_target(
            prepared,
            validated,
            snapshot,
            fence,
            limits,
        ).manifest.pack_bytes + validated.index@.len()
    } else {
        1
    }
}

/// Upload one validated push PACK and install its metadata and index in one transaction.
///
/// No ref, reflog or quarantine is changed. A failure leaves the source quarantine sealed, and a
/// retry is safe: an exact object that is already there is taken as it is, and a different one is
/// a collision.
pub fn promote_external_push_pack<
    B: ExternalPackPromotionBackend,
    Q: PackQuarantine,
    W: ExternalPackPromotionWork,
    C: ExternalPackPromotionControl,
>(
    backend: &mut B,
    options: &ExternalStorageOptions,
    prepared: &PreparedPush,
    validated: &ValidatedPushPack,
    quarantine: &mut Q,
    fence: QuarantineFence,
    limits: ExternalPackPromotionLimits,
    work: &mut W,
    control: &mut C,
) -> (result: Result<PgPackPromotionReceipt, ExternalPackPromotionError>)
    ensures
        final(quarantine).content() == old(quarantine).content(),
        final(quarantine).steps() == old(quarantine).steps(),
        reads_under(fence, old(quarantine).ranges(), final(quarantine).ranges()),
        work_kept(
            old(work).allowance(),
            final(work).allowance(),
            result is Err && result->Err_0 == ExternalPackPromotionError::WorkBudget,
            promotion_work(
                *prepared,
                *validated,
                old(quarantine).described(),
                fence,
                *options,
                limits,
            ),
        ),
        final(backend).events().len() >= old(backend).events().len(),
        final(backend).events().take(old(backend).events().len() as int) == old(backend).events(),
        final(backend).events().len() > old(backend).events().len() ==> {
            &&& limits.valid()
            &&& external_fault(
                *prepared,
                *validated,
                old(quarantine).described(),
                fence,
                *options,
                limits,
            ) is None
            &&& promotion_steps(
                final(backend).events().skip(old(backend).events().len() as int),
                *prepared,
                *validated,
                fence,
                external_target(*prepared, *validated, old(quarantine).described(), fence, limits),
                *options,
                limits,
            )
        },
        final(backend).events().len() >= old(backend).events().len() + 3 ==> {
            let steps = final(backend).events().skip(old(backend).events().len() as int);
            version_inspected::<B>(
                steps[0]->Orphan_0.storage_key@,
                upload_plan(
                    external_target(
                        *prepared,
                        *validated,
                        old(quarantine).described(),
                        fence,
                        limits,
                    ),
                    limits,
                ),
                steps[2]->Orphan_0.storage_version->0@,
            )
        },
        final(backend).events().len() >= old(backend).events().len() + 3 ==> {
            let steps = final(backend).events().skip(old(backend).events().len() as int);
            let target = external_target(
                *prepared,
                *validated,
                old(quarantine).described(),
                fence,
                limits,
            );
            exists|object: ExternalPackObject|
                object.version@ == steps[2]->Orphan_0.storage_version->0@
                    && #[trigger] object_obtained::<B, W, C>(
                    steps[0]->Orphan_0.storage_key@,
                    upload_plan(target, limits),
                    old(quarantine).content(),
                    target.manifest.hash_algo,
                    limits,
                    object,
                )
        },
        match result {
            Ok(receipt) => {
                &&& final(backend).events().len() == old(backend).events().len() + 4
                &&& receipt_answered(*final(backend), receipt)
                &&& cleared::<W, C>(limits, 1)
                &&& cleared::<W, C>(limits, validated.index@.len() as u64)
            },
            Err(error) => {
                let target = external_target(
                    *prepared,
                    *validated,
                    old(quarantine).described(),
                    fence,
                    limits,
                );
                let steps = final(backend).events().skip(old(backend).events().len() as int);
                if !limits.valid() {
                    error == ExternalPackPromotionError::InvalidLimits
                } else if steps.len() == 0 {
                    ||| interrupted::<W, C>(limits, 1, error)
                    ||| match external_fault(
                        *prepared,
                        *validated,
                        old(quarantine).described(),
                        fence,
                        *options,
                        limits,
                    ) {
                        Some(fault) => error == fault,
                        None => error == ExternalPackPromotionError::Binding && exists|
                            key: Seq<char>,
                        | #[trigger]
                            B::names(
                                prepared.tenant@,
                                prepared.repository@,
                                target.pack_checksum,
                                key,
                            ) && !(0 < encode_utf8(key).len() <= MAX_STORAGE_KEY_BYTES),
                    }
                } else if steps.len() <= 2 {
                    ||| exists|cause: PgPackPromotionInstallError|
                        steps.len() == 1 && error == external_install_error(cause)
                            && #[trigger] B::registers(steps[0]->Orphan_0, Err(cause))
                    ||| obtaining_failed::<B, Q, W, C>(
                        steps[0]->Orphan_0.storage_key@,
                        upload_plan(target, limits),
                        old(quarantine).content(),
                        target.manifest.hash_algo,
                        limits,
                        fence,
                        old(quarantine).ranges(),
                        final(quarantine).ranges(),
                        error,
                    )
                } else {
                    finish_failed::<B, W, C>(
                        *final(backend),
                        steps[2]->Orphan_0,
                        steps.len() == 4,
                        validated.index@,
                        limits,
                        error,
                    )
                }
            },
        },
{
    let ghost before = backend.events();
    let ghost content = quarantine.content();
    assert(before.take(before.len() as int) =~= before);
    if let Err(error) = limits.validate() {
        return Err(error);
    }
    let mut last_observed_at = limits.started_at;
    checkpoint(&limits, work, control, &mut last_observed_at, 1)?;
    let snapshot = quarantine.snapshot();
    let target = match check_bindings(prepared, validated, &snapshot, fence, limits.max_pack_bytes) {
        PromotionBinding::Bound(target) => target,
        PromotionBinding::Unbound => {
            return Err(ExternalPackPromotionError::Binding);
        },
        PromotionBinding::TooManyRows => {
            return Err(ExternalPackPromotionError::MetadataLimit);
        },
    };
    if !check_options(options) {
        return Err(ExternalPackPromotionError::Binding);
    }
    if !index_fits(validated.index.len(), limits.max_index_bytes) || !check_parts(
        target.manifest.pack_bytes,
        &limits,
    ) {
        return Err(ExternalPackPromotionError::MetadataLimit);
    }
    let storage_key = backend.pack_key(
        &prepared.tenant,
        &prepared.repository,
        target.pack_checksum,
    );
    let key_bytes: usize = text_bytes(&storage_key);
    if key_bytes == 0 || key_bytes > MAX_STORAGE_KEY_BYTES {
        return Err(ExternalPackPromotionError::Binding);
    }
    let orphan = ExternalPromotionOrphan {
        tenant: prepared.tenant.clone(),
        repository: prepared.repository.clone(),
        backend_name: options.backend_name.clone(),
        storage_key: storage_key.clone(),
        quarantine_id: fence.id,
        quarantine_generation: fence.generation,
        prepared_fingerprint: prepared.fingerprint,
        pack_checksum: target.pack_checksum,
        size_bytes: target.manifest.pack_bytes,
        storage_version: None,
        storage_checksum: None,
        not_before: limits.orphan_not_before,
    };
    let registered = backend.register_external_promotion_orphan(orphan);
    let ghost first = backend.events();
    assert(first.take(before.len() as int) =~= before);
    if let Err(error) = registered {
        assert(first.skip(before.len() as int) =~= seq![first.last()]);
        assert(B::registers(first.last()->Orphan_0, Err(error)));
        return Err(map_install_error(error));
    }
    let plan = ExternalPackUploadPlan {
        size_bytes: target.manifest.pack_bytes,
        content_checksum: target.pack_checksum,
        part_bytes: limits.part_bytes,
        maximum_in_flight_parts: limits.maximum_in_flight_parts,
        maximum_parts: limits.maximum_parts,
    };
    let obtained = obtain_object(
        backend,
        quarantine,
        fence,
        target.manifest.hash_algo,
        storage_key.as_str(),
        &plan,
        &limits,
        work,
        control,
        &mut last_observed_at,
    );
    let ghost second = backend.events();
    assert(second.take(before.len() as int) =~= before);
    let object = match obtained {
        Ok(object) => object,
        Err(error) => {
            assert(second.skip(before.len() as int)[0] == second[before.len() as int]);
            return Err(error);
        },
    };
    let ghost held = object;
    let result = finish_external_publication(
        backend,
        prepared,
        validated,
        fence,
        target,
        options,
        storage_key,
        object,
        &limits,
        work,
        control,
        &mut last_observed_at,
    );
    proof {
        let after = backend.events();
        assert(after.take(second.len() as int) == second);
        assert forall|i: int| 0 <= i < second.len() implies after[i] == second[i] by {
            assert(after.take(second.len() as int)[i] == after[i]);
        }
        assert(after.take(before.len() as int) =~= before);
        let steps = after.skip(before.len() as int);
        assert(steps[0] == second[before.len() as int]);
        assert(steps[1] == second[before.len() as int + 1]);
        assert(steps[2] == after[before.len() as int + 2]);
        if steps.len() == 4 {
            assert(steps[3] == after[before.len() as int + 3]);
        }
    }
    result
}

/// Upload session that keeps its parts and never finalizes an object.
#[derive(Debug)]
pub struct BufferedPackUpload {
    batches: Vec<Vec<ExternalPackPart>>,
}

impl BufferedPackUpload {
    /// Start with no part.
    pub fn new() -> (upload: Self)
        ensures
            upload.submitted() == Seq::<Seq<ExternalPackPart>>::empty(),
    {
        let upload = BufferedPackUpload { batches: Vec::new() };
        assert(upload.submitted() =~= Seq::<Seq<ExternalPackPart>>::empty());
        upload
    }

    /// Borrow the batches.
    pub fn batches(&self) -> (batches: &[Vec<ExternalPackPart>])
        ensures
            batches@.map_values(|batch: Vec<ExternalPackPart>| batch@) == self.submitted(),
    {
        self.batches.as_slice()
    }
}

impl ExternalPackPromotionUpload for BufferedPackUpload {
    closed spec fn submitted(&self) -> Seq<Seq<ExternalPackPart>> {
        self.batches@.map_values(|batch: Vec<ExternalPackPart>| batch@)
    }

    fn upload_parts(&mut self, parts: Vec<ExternalPackPart>) -> (result: Result<
        (),
        ExternalPackProviderError,
    >)
        ensures
            result is Ok,
    {
        let ghost before = self.submitted();
        let ghost batch = parts@;
        self.batches.push(parts);
        assert(self.submitted() =~= before.push(batch));
        Ok(())
    }

    fn complete(self) -> (result: Result<ExternalPackObject, ExternalPackProviderError>)
        ensures
            result is Err,
    {
        Err(ExternalPackProviderError)
    }

    fn abort(self) -> (result: Result<(), ExternalPackProviderError>)
        ensures
            result is Ok,
    {
        Ok(())
    }
}

/// In-process storage with one object key.
pub struct ExternalPackSlot {
    key: String,
    object: Option<ExternalPackObject>,
    orphans: Vec<ExternalPromotionOrphan>,
    stages: Vec<PgPackPromotionStage>,
    events: Ghost<Seq<ExternalPromotionEvent>>,
}

impl ExternalPackSlot {
    /// The orphan records.
    pub closed spec fn spec_orphans(self) -> Seq<ExternalPromotionOrphan> {
        self.orphans@
    }

    /// The installed stages.
    pub closed spec fn spec_stages(self) -> Seq<PgPackPromotionStage> {
        self.stages@
    }

    /// Create the storage, with the object that has the key if there is one.
    pub fn new(key: String, object: Option<ExternalPackObject>) -> (slot: Self)
        ensures
            slot.events() == Seq::<ExternalPromotionEvent>::empty(),
            slot.spec_orphans() == Seq::<ExternalPromotionOrphan>::empty(),
            slot.spec_stages() == Seq::<PgPackPromotionStage>::empty(),
    {
        ExternalPackSlot {
            key,
            object,
            orphans: Vec::new(),
            stages: Vec::new(),
            events: Ghost(Seq::empty()),
        }
    }

    /// Borrow the orphan records.
    pub fn orphans(&self) -> (orphans: &[ExternalPromotionOrphan])
        ensures
            orphans@ == self.spec_orphans(),
    {
        self.orphans.as_slice()
    }

    /// Borrow the installed stages.
    pub fn stages(&self) -> (stages: &[PgPackPromotionStage])
        ensures
            stages@ == self.spec_stages(),
    {
        self.stages.as_slice()
    }

    /// Copy the object that has the key.
    fn copy_object(&self) -> (object: Option<ExternalPackObject>)
        ensures
            object is Some <==> self.object is Some,
            object is Some ==> object->0.same_as(self.object->0),
    {
        match &self.object {
            Some(object) => Some(
                ExternalPackObject {
                    size_bytes: object.size_bytes,
                    content_checksum: object.content_checksum,
                    version: ExternalPackObjectVersion { bytes: copy_version(&object.version) },
                },
            ),
            None => None,
        }
    }
}

impl ExternalPackPromotionStore for ExternalPackSlot {
    type Upload = BufferedPackUpload;

    closed spec fn events(&self) -> Seq<ExternalPromotionEvent> {
        self.events@
    }

    fn inspect_final(&self, key: &str) -> Result<
        Option<ExternalPackObject>,
        ExternalPackProviderError,
    > {
        if !same_bytes(key.as_bytes(), self.key.as_str().as_bytes()) {
            return Ok(None);
        }
        Ok(self.copy_object())
    }

    fn begin_create_if_absent(&mut self, key: &str, plan: &ExternalPackUploadPlan) -> (result:
        Result<ExternalPackPromotionBegin<Self::Upload>, ExternalPackProviderError>) {
        self.events = Ghost(self.events@.push(ExternalPromotionEvent::Begin(key@, *plan)));
        if !same_bytes(key.as_bytes(), self.key.as_str().as_bytes()) {
            return Err(ExternalPackProviderError);
        }
        match self.copy_object() {
            Some(object) => Ok(ExternalPackPromotionBegin::Existing(object)),
            None => Ok(ExternalPackPromotionBegin::Upload(BufferedPackUpload::new())),
        }
    }
}

impl ExternalPackPromotionBackend for ExternalPackSlot {
    open spec fn answered(
        &self,
        stage: PgPackPromotionStage,
        answer: Result<PgPackPromotionReceipt, PgPackPromotionInstallError>,
    ) -> bool {
        answer is Ok && answer->Ok_0.spec_evidence() == evidence_of(stage.scope, stage.pack, false)
    }

    fn pack_key(
        &self,
        tenant: &TenantId,
        repository: &RepositoryId,
        pack_checksum: ObjectId,
    ) -> String {
        self.key.clone()
    }

    fn register_external_promotion_orphan(&mut self, orphan: ExternalPromotionOrphan) -> (result:
        Result<(), PgPackPromotionInstallError>)
        ensures
            result is Ok,
            final(self).spec_orphans() == old(self).spec_orphans().push(orphan),
            final(self).spec_stages() == old(self).spec_stages(),
    {
        self.events = Ghost(self.events@.push(ExternalPromotionEvent::Orphan(orphan)));
        self.orphans.push(orphan);
        Ok(())
    }

    fn install_promoted_push_pack(&mut self, stage: PgPackPromotionStage) -> (result: Result<
        PgPackPromotionReceipt,
        PgPackPromotionInstallError,
    >)
        ensures
            result is Ok,
            result->Ok_0.spec_evidence() == evidence_of(stage.scope, stage.pack, false),
            final(self).spec_stages() == old(self).spec_stages().push(stage),
            final(self).spec_orphans() == old(self).spec_orphans(),
    {
        self.events = Ghost(self.events@.push(ExternalPromotionEvent::Install(stage)));
        let receipt = PgPackPromotionReceipt::new(testify(&stage.scope, &stage.pack, false));
        self.stages.push(stage);
        Ok(receipt)
    }
}

} // verus!
