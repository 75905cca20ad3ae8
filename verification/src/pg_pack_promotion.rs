//! Bounded promotion of validated push PACKs into transactional storage.
//!
//! Reads, checksums and index conversion happen before the transaction, which then guards the
//! repository generation and installs the PACK, its index and a retry receipt without publishing
//! refs.

use crate::budget::{spends, work_kept};
use crate::clock::Timestamp;
use crate::object::{ObjectId, RepositoryId, TenantId};
use crate::pack_promotion::{
    binding_of, check_bindings, check_distinct, check_same_pack, convert_index, evidence_of,
    index_fits, index_memory, next_range, pack_of, same_pack, testify, trailer_agrees, BodyDigest,
    PromotionBinding, PromotionEvidence, PromotionScope, PromotionTarget, StoredPack,
    StoredPackMetadata,
};
use crate::push_metrics::ReceivePackLimits;
use crate::push_pack_validation::ValidatedPushPack;
use crate::push_parallel_validation::rows_distinct;
use crate::push_prepared::PreparedPush;
use crate::push_quarantine::{
    answered_under, law_range_answers_its_bytes, reads_under, unreadable, PackQuarantine, QuarantineFence, QuarantineId, QuarantineSnapshot,
};
use vstd::prelude::*;

verus! {

/// Bounds of a transactional promotion.
#[derive(Clone, Copy, Debug, PartialEq, Eq, Structural)]
pub struct PgPackPromotionLimits {
    /// Maximum PACK bytes.
    pub max_pack_bytes: u64,
    /// Maximum index bytes.
    pub max_index_bytes: u64,
    /// Maximum bytes of one read.
    pub range_chunk_bytes: usize,
    /// Start time.
    pub started_at: Timestamp,
    /// Deadline.
    pub deadline: Timestamp,
}

impl PgPackPromotionLimits {
    /// The bounds may be used.
    pub open spec fn valid(self) -> bool {
        let hard = ReceivePackLimits::spec_hard_max();
        &&& 0 < self.max_pack_bytes <= hard.max_pack_bytes
        &&& 0 < self.max_index_bytes <= hard.max_metadata_memory_bytes
        &&& 0 < self.range_chunk_bytes <= hard.bytes_in_flight
        &&& self.started_at.unix_nanos < self.deadline.unix_nanos
        &&& self.deadline.unix_nanos - self.started_at.unix_nanos <= hard.max_duration.nanos
    }

    /// Validate the bounds.
    pub fn validate(self) -> (result: Result<Self, PgPackPromotionError>)
        ensures
            result == if self.valid() {
                Ok::<Self, PgPackPromotionError>(self)
            } else {
                Err(PgPackPromotionError::InvalidLimits)
            },
    {
        let hard = ReceivePackLimits::hard_max();
        if self.max_pack_bytes == 0 || self.max_pack_bytes > hard.max_pack_bytes
            || self.max_index_bytes == 0 || self.max_index_bytes > hard.max_metadata_memory_bytes
            || self.range_chunk_bytes == 0 || self.range_chunk_bytes as u64 > hard.bytes_in_flight
            || self.deadline.unix_nanos <= self.started_at.unix_nanos {
            return Err(PgPackPromotionError::InvalidLimits);
        }
        match self.deadline.unix_nanos.checked_sub(self.started_at.unix_nanos) {
            Some(span) => {
                if span as u128 > hard.max_duration.nanos {
                    return Err(PgPackPromotionError::InvalidLimits);
                }
                Ok(self)
            },
            None => Err(PgPackPromotionError::InvalidLimits),
        }
    }
}

/// One observation of time and cancellation.
#[derive(Clone, Copy, Debug, PartialEq, Eq, Structural)]
pub struct PgPackPromotionObservation {
    /// Observed time.
    pub observed_at: Timestamp,
    /// Cancellation.
    pub cancelled: bool,
}

/// Source of observations.
pub trait PgPackPromotionControl {
    /// The source may make this observation.
    closed spec fn observes(observation: PgPackPromotionObservation) -> bool {
        true
    }

    /// Return the latest observation.
    fn observe(&mut self) -> (observation: PgPackPromotionObservation)
        ensures
            Self::observes(observation),
    ;
}

/// Work budget.
pub trait PgPackPromotionWork {
    /// A charge may be answered so.
    closed spec fn answers(units: u64, charged: bool) -> bool {
        true
    }

    /// Units left, where the budget counts them.
    closed spec fn allowance(&self) -> Option<nat> {
        None
    }

    /// Charge work units; `false` means that the budget is exhausted.
    fn charge(&mut self, units: u64) -> (charged: bool)
        ensures
            Self::answers(units, charged),
            spends(old(self).allowance(), final(self).allowance(), units, charged),
    ;
}

/// Counter-based work budget.
#[derive(Clone, Copy, Debug, PartialEq, Eq, Structural)]
pub struct PgPackPromotionWorkLimit {
    remaining: u64,
}

impl PgPackPromotionWorkLimit {
    /// Units left.
    pub closed spec fn left(self) -> u64 {
        self.remaining
    }

    /// Create an exact allowance.
    pub fn new(units: u64) -> (limit: Self)
        ensures
            limit.left() == units,
    {
        PgPackPromotionWorkLimit { remaining: units }
    }

    /// Return the units left.
    pub fn remaining(&self) -> (units: u64)
        ensures
            units == self.left(),
    {
        self.remaining
    }
}

impl PgPackPromotionWork for PgPackPromotionWorkLimit {
    /// A charge of nothing is never refused.
    open spec fn answers(units: u64, charged: bool) -> bool {
        charged || units > 0
    }

    /// What is left.
    open spec fn allowance(&self) -> Option<nat> {
        Some(self.left() as nat)
    }

    fn charge(&mut self, units: u64) -> (charged: bool)
        ensures
            charged == (units <= old(self).left()),
            final(self).left() == if charged {
                (old(self).left() - units) as u64
            } else {
                old(self).left()
            },
    {
        if units > self.remaining {
            return false;
        }
        self.remaining = self.remaining - units;
        true
    }
}

/// Transactional promotion failure.
#[derive(Clone, Copy, Debug, PartialEq, Eq, Structural)]
pub enum PgPackPromotionError {
    /// Limits are zero, inconsistent, or above a ceiling.
    InvalidLimits,
    /// Bindings disagree.
    Binding,
    /// The repository generation changed.
    StaleGeneration,
    /// Stored content differs.
    Collision,
    /// A quarantine read failed.
    Quarantine,
    /// The bytes do not match their checksum.
    Checksum,
    /// Metadata exceeds its bound.
    MetadataLimit,
    /// A bounded buffer could not be reserved.
    Allocation,
    /// The work budget is exhausted.
    WorkBudget,
    /// Cancellation was observed.
    Cancelled,
    /// The deadline elapsed, or observed time moved backwards.
    Deadline,
    /// The backend failed.
    Backend,
}

/// Evidence that a PACK and its index are installed.
#[derive(Debug)]
pub struct PgPackPromotionReceipt {
    evidence: PromotionEvidence,
}

impl PgPackPromotionReceipt {
    /// The evidence.
    pub closed spec fn spec_evidence(self) -> PromotionEvidence {
        self.evidence
    }

    /// Create a receipt.
    pub fn new(evidence: PromotionEvidence) -> (receipt: Self)
        ensures
            receipt.spec_evidence() == evidence,
    {
        PgPackPromotionReceipt { evidence }
    }

    /// Borrow the tenant.
    pub fn tenant(&self) -> (tenant: &TenantId)
        ensures
            *tenant == self.spec_evidence().tenant,
    {
        &self.evidence.tenant
    }

    /// Borrow the repository.
    pub fn repository(&self) -> (repository: &RepositoryId)
        ensures
            *repository == self.spec_evidence().repository,
    {
        &self.evidence.repository
    }

    /// Return the source quarantine.
    pub fn quarantine_id(&self) -> (id: QuarantineId)
        ensures
            id == self.spec_evidence().quarantine_id,
    {
        self.evidence.quarantine_id
    }

    /// Return the quarantine generation.
    pub fn quarantine_generation(&self) -> (generation: u64)
        ensures
            generation == self.spec_evidence().quarantine_generation,
    {
        self.evidence.quarantine_generation
    }

    /// Return the repository generation.
    pub fn repository_generation(&self) -> (generation: u64)
        ensures
            generation == self.spec_evidence().repository_generation,
    {
        self.evidence.repository_generation
    }

    /// Return the PACK checksum.
    pub fn pack_checksum(&self) -> (checksum: ObjectId)
        ensures
            checksum == self.spec_evidence().pack_checksum,
    {
        self.evidence.pack_checksum
    }

    /// Return the index checksum.
    pub fn index_checksum(&self) -> (checksum: ObjectId)
        ensures
            checksum == self.spec_evidence().index_checksum,
    {
        self.evidence.index_checksum
    }

    /// Return the prepared fingerprint.
    pub fn prepared_fingerprint(&self) -> (fingerprint: ObjectId)
        ensures
            fingerprint == self.spec_evidence().prepared_fingerprint,
    {
        self.evidence.prepared_fingerprint
    }

    /// Return the entry count.
    pub fn object_count(&self) -> (count: u32)
        ensures
            count == self.spec_evidence().object_count,
    {
        self.evidence.object_count
    }

    /// Return the PACK bytes.
    pub fn size_bytes(&self) -> (bytes: u64)
        ensures
            bytes == self.spec_evidence().size_bytes,
    {
        self.evidence.size_bytes
    }

    /// Return whether the same pack was already stored.
    pub fn deduplicated(&self) -> (deduplicated: bool)
        ensures
            deduplicated == self.spec_evidence().deduplicated,
    {
        self.evidence.deduplicated
    }
}

/// Where the bytes of a promoted pack are.
#[derive(Debug)]
pub enum PgPackPromotionStorage {
    /// In the database.
    Database,
    /// In an external store.
    External {
        /// Store name.
        backend_name: String,
        /// Object key.
        storage_key: String,
        /// Immutable version.
        storage_version: Vec<u8>,
        /// Checksum of the object.
        storage_checksum: ObjectId,
    },
}

impl PgPackPromotionStorage {
    /// Return the store name.
    pub fn backend_name(&self) -> (name: Option<&str>)
        ensures
            match *self {
                PgPackPromotionStorage::Database => name is None,
                PgPackPromotionStorage::External { backend_name, .. } => name is Some && name->0@
                    == backend_name@,
            },
    {
        match self {
            PgPackPromotionStorage::Database => None,
            PgPackPromotionStorage::External { backend_name, .. } => Some(backend_name.as_str()),
        }
    }

    /// Return the object key.
    pub fn storage_key(&self) -> (key: Option<&str>)
        ensures
            match *self {
                PgPackPromotionStorage::Database => key is None,
                PgPackPromotionStorage::External { storage_key, .. } => key is Some && key->0@
                    == storage_key@,
            },
    {
        match self {
            PgPackPromotionStorage::Database => None,
            PgPackPromotionStorage::External { storage_key, .. } => Some(storage_key.as_str()),
        }
    }

    /// Return the immutable version.
    pub fn storage_version(&self) -> (version: Option<&[u8]>)
        ensures
            match *self {
                PgPackPromotionStorage::Database => version is None,
                PgPackPromotionStorage::External { storage_version, .. } => version is Some
                    && version->0@ == storage_version@,
            },
    {
        match self {
            PgPackPromotionStorage::Database => None,
            PgPackPromotionStorage::External { storage_version, .. } => Some(
                storage_version.as_slice(),
            ),
        }
    }

    /// Return the checksum of the object.
    pub fn storage_checksum(&self) -> (checksum: Option<Vec<u8>>)
        ensures
            match *self {
                PgPackPromotionStorage::Database => checksum is None,
                PgPackPromotionStorage::External { storage_checksum, .. } => checksum is Some
                    && checksum->0@ == storage_checksum@,
            },
    {
        match self {
            PgPackPromotionStorage::Database => None,
            PgPackPromotionStorage::External { storage_checksum, .. } => Some(
                storage_checksum.to_bytes(),
            ),
        }
    }
}

/// A promotion ready to be installed.
#[derive(Debug)]
pub struct PgPackPromotionStage {
    /// Whose promotion it is.
    pub scope: PromotionScope,
    /// The pack.
    pub pack: StoredPack,
    /// Where its bytes are.
    pub storage: PgPackPromotionStorage,
}

/// Why an installation failed.
#[derive(Clone, Copy, Debug, PartialEq, Eq, Structural)]
pub enum PgPackPromotionInstallError {
    /// The repository generation changed.
    StaleGeneration,
    /// Stored content differs.
    Collision,
    /// The backend failed.
    Backend,
}

/// The promotion's name for an installation failure.
pub open spec fn install_error(error: PgPackPromotionInstallError) -> PgPackPromotionError {
    match error {
        PgPackPromotionInstallError::StaleGeneration => PgPackPromotionError::StaleGeneration,
        PgPackPromotionInstallError::Collision => PgPackPromotionError::Collision,
        PgPackPromotionInstallError::Backend => PgPackPromotionError::Backend,
    }
}

/// Map an installation failure.
pub fn map_install_error(error: PgPackPromotionInstallError) -> (mapped: PgPackPromotionError)
    ensures
        mapped == install_error(error),
{
    match error {
        PgPackPromotionInstallError::StaleGeneration => PgPackPromotionError::StaleGeneration,
        PgPackPromotionInstallError::Collision => PgPackPromotionError::Collision,
        PgPackPromotionInstallError::Backend => PgPackPromotionError::Backend,
    }
}

/// Transactional storage of promoted packs.
///
/// A failed installation leaves nothing behind; an exact retry returns the first receipt.
pub trait PgPackPromotionBackend {
    /// The stages handed over so far.
    closed spec fn staged(&self) -> Seq<PgPackPromotionStage> {
        Seq::empty()
    }

    /// The last stage handed over was answered this way.
    closed spec fn answered(
        &self,
        stage: PgPackPromotionStage,
        answer: Result<PgPackPromotionReceipt, PgPackPromotionInstallError>,
    ) -> bool {
        true
    }

    /// Install a stage in one transaction.
    fn install_promoted_push_pack(&mut self, stage: PgPackPromotionStage) -> (result: Result<
        PgPackPromotionReceipt,
        PgPackPromotionInstallError,
    >)
        ensures
            final(self).staged() == old(self).staged().push(stage),
            final(self).answered(stage, result),
    ;
}

/// Packs kept in process, in the order in which they were installed.
#[derive(Debug)]
pub struct PgPackLedger {
    stages: Vec<PgPackPromotionStage>,
}

impl PgPackLedger {
    /// The packs.
    pub closed spec fn spec_stages(self) -> Seq<PgPackPromotionStage> {
        self.stages@
    }

    /// Start with no pack.
    pub fn new() -> (ledger: Self)
        ensures
            ledger.spec_stages() == Seq::<PgPackPromotionStage>::empty(),
    {
        PgPackLedger { stages: Vec::new() }
    }

    /// Borrow the packs.
    pub fn stages(&self) -> (stages: &[PgPackPromotionStage])
        ensures
            stages@ == self.spec_stages(),
    {
        self.stages.as_slice()
    }

    /// The repository has a pack of this checksum.
    pub open spec fn holds(
        stages: Seq<PgPackPromotionStage>,
        scope: PromotionScope,
    ) -> bool {
        exists|i: int| 0 <= i < stages.len() && same_pack((#[trigger] stages[i]).scope, scope)
    }
}

impl PgPackPromotionBackend for PgPackLedger {
    open spec fn staged(&self) -> Seq<PgPackPromotionStage> {
        self.spec_stages()
    }

    open spec fn answered(
        &self,
        stage: PgPackPromotionStage,
        answer: Result<PgPackPromotionReceipt, PgPackPromotionInstallError>,
    ) -> bool {
        &&& answer is Ok
        &&& answer->Ok_0.spec_evidence() == evidence_of(
            stage.scope,
            stage.pack,
            PgPackLedger::holds(self.spec_stages().drop_last(), stage.scope),
        )
    }

    fn install_promoted_push_pack(&mut self, stage: PgPackPromotionStage) -> (result: Result<
        PgPackPromotionReceipt,
        PgPackPromotionInstallError,
    >)
        ensures
            result is Ok,
            result->Ok_0.spec_evidence() == evidence_of(
                stage.scope,
                stage.pack,
                PgPackLedger::holds(old(self).spec_stages(), stage.scope),
            ),
    {
        let ghost before = self.stages@;
        let mut known: bool = false;
        let mut at: usize = 0;
        while at < self.stages.len()
            invariant
                self.stages@ == before,
                at <= before.len(),
                known == exists|i: int|
                    0 <= i < at && same_pack((#[trigger] before[i]).scope, stage.scope),
            decreases before.len() - at,
        {
            let same: bool = check_same_pack(&self.stages[at].scope, &stage.scope);
            proof {
                if known {
                    let i = choose|i: int|
                        0 <= i < at && same_pack((#[trigger] before[i]).scope, stage.scope);
                    assert(0 <= i < at + 1 && same_pack(before[i].scope, stage.scope));
                }
                if same {
                    assert(same_pack(before[at as int].scope, stage.scope));
                }
            }
            known = known || same;
            at = at + 1;
        }
        let receipt = PgPackPromotionReceipt::new(testify(&stage.scope, &stage.pack, known));
        self.stages.push(stage);
        assert(self.stages@.drop_last() =~= before);
        Ok(receipt)
    }
}

/// The time is that of the start or of an observation.
pub open spec fn seen_at<C: PgPackPromotionControl>(
    limits: PgPackPromotionLimits,
    time: Timestamp,
) -> bool {
    time == limits.started_at || exists|observation: PgPackPromotionObservation| #[trigger]
        C::observes(observation) && observation.observed_at == time
}

/// The observation lies outside the run, or before an earlier time of it.
pub open spec fn untimely<C: PgPackPromotionControl>(
    limits: PgPackPromotionLimits,
    observation: PgPackPromotionObservation,
) -> bool {
    ||| observation.observed_at.unix_nanos < limits.started_at.unix_nanos
    ||| observation.observed_at.unix_nanos >= limits.deadline.unix_nanos
    ||| exists|time: Timestamp| #[trigger]
        seen_at::<C>(limits, time) && observation.observed_at.unix_nanos < time.unix_nanos
}

/// A checkpoint let the run go on: it was observed in time and not cancelled, and the units were
/// granted.
pub open spec fn cleared<W: PgPackPromotionWork, C: PgPackPromotionControl>(limits: PgPackPromotionLimits, units: u64) -> bool {
    &&& W::answers(units, true)
    &&& exists|observation: PgPackPromotionObservation| #[trigger]
        C::observes(observation) && !observation.cancelled && limits.started_at.unix_nanos
            <= observation.observed_at.unix_nanos < limits.deadline.unix_nanos
}

/// A checkpoint stopped the run from outside: its charge was refused, or its observation was
/// cancelled or untimely.
pub open spec fn interrupted<W: PgPackPromotionWork, C: PgPackPromotionControl>(
    limits: PgPackPromotionLimits,
    units: u64,
    error: PgPackPromotionError,
) -> bool {
    ||| error == PgPackPromotionError::WorkBudget && W::answers(units, false)
    ||| error == PgPackPromotionError::Cancelled
        && exists|observation: PgPackPromotionObservation| #[trigger]
        C::observes(observation) && observation.cancelled
    ||| error == PgPackPromotionError::Deadline
        && exists|observation: PgPackPromotionObservation| #[trigger]
        C::observes(observation) && untimely::<C>(limits, observation)
}

/// Accept one observation: time never goes back, and the run is neither cancelled nor over.
pub fn accept_observation(
    observation: PgPackPromotionObservation,
    limits: &PgPackPromotionLimits,
    last_observed_at: &mut Timestamp,
) -> (result: Result<(), PgPackPromotionError>)
    ensures
        result == if observation.observed_at.unix_nanos < old(last_observed_at).unix_nanos {
            Err::<(), PgPackPromotionError>(PgPackPromotionError::Deadline)
        } else if observation.cancelled {
            Err(PgPackPromotionError::Cancelled)
        } else if observation.observed_at.unix_nanos < limits.started_at.unix_nanos
            || observation.observed_at.unix_nanos >= limits.deadline.unix_nanos {
            Err(PgPackPromotionError::Deadline)
        } else {
            Ok(())
        },
        *final(last_observed_at) == if observation.observed_at.unix_nanos < old(last_observed_at).unix_nanos {
            *old(last_observed_at)
        } else {
            observation.observed_at
        },
{
    if observation.observed_at.unix_nanos < last_observed_at.unix_nanos {
        return Err(PgPackPromotionError::Deadline);
    }
    *last_observed_at = observation.observed_at;
    if observation.cancelled {
        return Err(PgPackPromotionError::Cancelled);
    }
    if observation.observed_at.unix_nanos < limits.started_at.unix_nanos
        || observation.observed_at.unix_nanos >= limits.deadline.unix_nanos {
        return Err(PgPackPromotionError::Deadline);
    }
    Ok(())
}

/// Observe time and cancellation, then charge units.
fn checkpoint<W: PgPackPromotionWork, C: PgPackPromotionControl>(
    limits: &PgPackPromotionLimits,
    work: &mut W,
    control: &mut C,
    last_observed_at: &mut Timestamp,
    units: u64,
) -> (result: Result<(), PgPackPromotionError>)
    requires
        seen_at::<C>(*limits, *old(last_observed_at)),
    ensures
        seen_at::<C>(*limits, *final(last_observed_at)),
        match result {
            Ok(()) => cleared::<W, C>(*limits, units),
            Err(error) => interrupted::<W, C>(*limits, units, error),
        },
        work_kept(
            old(work).allowance(),
            final(work).allowance(),
            result is Err && result->Err_0 == PgPackPromotionError::WorkBudget,
            units as int,
        ),
{
    let observation = control.observe();
    accept_observation(observation, limits, last_observed_at)?;
    if !work.charge(units) {
        return Err(PgPackPromotionError::WorkBudget);
    }
    Ok(())
}

/// Why a promotion cannot be staged, before any byte is read.
pub open spec fn pg_fault(
    prepared: PreparedPush,
    validated: ValidatedPushPack,
    snapshot: QuarantineSnapshot,
    fence: QuarantineFence,
    limits: PgPackPromotionLimits,
) -> Option<PgPackPromotionError> {
    match binding_of(prepared, validated, snapshot, fence, limits.max_pack_bytes) {
        PromotionBinding::Unbound => Some(PgPackPromotionError::Binding),
        PromotionBinding::TooManyRows => Some(PgPackPromotionError::MetadataLimit),
        PromotionBinding::Bound(target) => if index_memory(validated.index@.len() as int)
            > limits.max_index_bytes || target.manifest.pack_bytes > usize::MAX {
            Some(PgPackPromotionError::MetadataLimit)
        } else if target.manifest.pack_bytes < target.manifest.hash_algo.spec_len() {
            Some(PgPackPromotionError::Binding)
        } else {
            None
        },
    }
}

/// The target that the bindings agree on.
pub open spec fn pg_target(
    prepared: PreparedPush,
    validated: ValidatedPushPack,
    snapshot: QuarantineSnapshot,
    fence: QuarantineFence,
    limits: PgPackPromotionLimits,
) -> PromotionTarget {
    binding_of(prepared, validated, snapshot, fence, limits.max_pack_bytes)->Bound_0
}

/// The stage holds the target's checked bytes, its index and its scope.
pub open spec fn stage_of(
    stage: PgPackPromotionStage,
    prepared: PreparedPush,
    validated: ValidatedPushPack,
    fence: QuarantineFence,
    target: PromotionTarget,
    content: Seq<u8>,
) -> bool {
    let data = content.take(target.manifest.pack_bytes as int);
    &&& target.manifest.pack_bytes <= content.len()
    &&& stage.scope.fits(prepared, fence, target)
    &&& pack_of(stage.pack, target, validated.index@, data)
    &&& trailer_agrees(data, target.manifest.hash_algo, target.pack_checksum)
    &&& rows_distinct(validated.index@)
    &&& stage.storage is Database
}

/// Why staging fails.
pub open spec fn staging_failed<
    Q: PackQuarantine,
    W: PgPackPromotionWork,
    C: PgPackPromotionControl,
>(
    prepared: PreparedPush,
    validated: ValidatedPushPack,
    snapshot: QuarantineSnapshot,
    fence: QuarantineFence,
    limits: PgPackPromotionLimits,
    content: Seq<u8>,
    error: PgPackPromotionError,
) -> bool {
    if !limits.valid() {
        error == PgPackPromotionError::InvalidLimits
    } else {
        ||| interrupted::<W, C>(limits, 1, error)
        ||| match pg_fault(prepared, validated, snapshot, fence, limits) {
            Some(fault) => error == fault,
            None => {
                let target = pg_target(prepared, validated, snapshot, fence, limits);
                ||| exists|units: u64| #[trigger]
                    interrupted::<W, C>(limits, units, error) && (0 < units
                        <= limits.range_chunk_bytes && units <= target.manifest.pack_bytes || units
                        == validated.index@.len())
                ||| error == PgPackPromotionError::Quarantine && unreadable::<Q>(fence)
                ||| error == PgPackPromotionError::Checksum && target.manifest.pack_bytes
                    <= content.len() && !trailer_agrees(
                    content.take(target.manifest.pack_bytes as int),
                    target.manifest.hash_algo,
                    target.pack_checksum,
                )
                ||| error == PgPackPromotionError::Binding && !rows_distinct(validated.index@)
            },
        }
    }
}

/// Most units that staging takes: one at the start, one for every byte and every range, and one for
/// every index row.
pub open spec fn staging_work(
    prepared: PreparedPush,
    validated: ValidatedPushPack,
    snapshot: QuarantineSnapshot,
    fence: QuarantineFence,
    limits: PgPackPromotionLimits,
) -> int {
    if pg_fault(prepared, validated, snapshot, fence, limits) is None {
        1 + 2 * pg_target(prepared, validated, snapshot, fence, limits).manifest.pack_bytes
            + validated.index@.len()
    } else {
        1
    }
}

/// The bytes of the first range read.
pub open spec fn first_range(total: u64, limits: PgPackPromotionLimits) -> u64 {
    if total < limits.range_chunk_bytes {
        total
    } else {
        limits.range_chunk_bytes as u64
    }
}

/// The work of staging was granted, in time and without a cancellation: at the start, for the
/// ranges read and for the index.
pub open spec fn staging_cleared<W: PgPackPromotionWork, C: PgPackPromotionControl>(
    limits: PgPackPromotionLimits,
    total: u64,
    rows: u64,
) -> bool {
    &&& cleared::<W, C>(limits, 1)
    &&& total > 0 ==> cleared::<W, C>(limits, first_range(total, limits))
    &&& cleared::<W, C>(limits, rows)
}

/// Read, check and convert a PACK, without installing anything.
pub fn stage_pg_push_pack<Q: PackQuarantine, W: PgPackPromotionWork, C: PgPackPromotionControl>(
    prepared: &PreparedPush,
    validated: &ValidatedPushPack,
    quarantine: &mut Q,
    fence: QuarantineFence,
    limits: PgPackPromotionLimits,
    work: &mut W,
    control: &mut C,
) -> (result: Result<PgPackPromotionStage, PgPackPromotionError>)
    ensures
        final(quarantine).content() == old(quarantine).content(),
        final(quarantine).steps() == old(quarantine).steps(),
        reads_under(fence, old(quarantine).ranges(), final(quarantine).ranges()),
        work_kept(
            old(work).allowance(),
            final(work).allowance(),
            result is Err && result->Err_0 == PgPackPromotionError::WorkBudget,
            staging_work(*prepared, *validated, old(quarantine).described(), fence, limits),
        ),
        match result {
            Ok(stage) => {
                &&& limits.valid()
                &&& answered_under::<Q>(
                    fence,
                    old(quarantine).content(),
                    0,
                    pg_target(
                        *prepared,
                        *validated,
                        old(quarantine).described(),
                        fence,
                        limits,
                    ).manifest.pack_bytes as int,
                )
                &&& staging_cleared::<W, C>(
                    limits,
                    pg_target(
                        *prepared,
                        *validated,
                        old(quarantine).described(),
                        fence,
                        limits,
                    ).manifest.pack_bytes,
                    validated.index@.len() as u64,
                )
                &&& pg_fault(
                    *prepared,
                    *validated,
                    old(quarantine).described(),
                    fence,
                    limits,
                ) is None
                &&& stage_of(
                    stage,
                    *prepared,
                    *validated,
                    fence,
                    pg_target(*prepared, *validated, old(quarantine).described(), fence, limits),
                    old(quarantine).content(),
                )
            },
            Err(error) => staging_failed::<Q, W, C>(
                *prepared,
                *validated,
                old(quarantine).described(),
                fence,
                limits,
                old(quarantine).content(),
                error,
            ),
        },
{
    if let Err(error) = limits.validate() {
        return Err(error);
    }
    let mut last_observed_at = limits.started_at;
    checkpoint(&limits, work, control, &mut last_observed_at, 1)?;
    let snapshot = quarantine.snapshot();
    let target = match check_bindings(prepared, validated, &snapshot, fence, limits.max_pack_bytes) {
        PromotionBinding::Bound(target) => target,
        PromotionBinding::Unbound => {
            return Err(PgPackPromotionError::Binding);
        },
        PromotionBinding::TooManyRows => {
            return Err(PgPackPromotionError::MetadataLimit);
        },
    };
    let total: u64 = target.manifest.pack_bytes;
    if !index_fits(validated.index.len(), limits.max_index_bytes) || total > usize::MAX as u64 {
        return Err(PgPackPromotionError::MetadataLimit);
    }
    let mut digest = match BodyDigest::new(target.manifest.hash_algo, total) {
        Some(digest) => digest,
        None => {
            return Err(PgPackPromotionError::Binding);
        },
    };
    let ghost content = quarantine.content();
    let mut data: Vec<u8> = Vec::new();
    let mut offset: u64 = 0;
    while offset < total
        invariant
            limits.valid(),
            seen_at::<C>(limits, last_observed_at),
            content == old(quarantine).content(),
            quarantine.content() == content,
            quarantine.steps() == old(quarantine).steps(),
            reads_under(fence, old(quarantine).ranges(), quarantine.ranges()),
            offset <= total,
            work_kept(old(work).allowance(), work.allowance(), false, 1 + 2 * offset),
            offset == data@.len(),
            offset <= content.len(),
            data@ == content.take(offset as int),
            answered_under::<Q>(fence, content, 0, offset as int),
            digest.wf(),
            digest.seen() == data@,
            digest.spec_total() == total,
            digest.spec_algo() == target.manifest.hash_algo,
            offset > 0 ==> cleared::<W, C>(limits, first_range(total, limits)),
            total == pg_target(
                *prepared,
                *validated,
                old(quarantine).described(),
                fence,
                limits,
            ).manifest.pack_bytes,
            pg_fault(*prepared, *validated, old(quarantine).described(), fence, limits) is None,
        decreases total - offset,
    {
        let length: usize = next_range(total, offset, limits.range_chunk_bytes);
        checkpoint(&limits, work, control, &mut last_observed_at, length as u64)?;
        let read = quarantine.read_range(fence, offset, length);
        let bytes: Vec<u8> = match read {
            Ok(bytes) => bytes,
            Err(_) => {
                return Err(PgPackPromotionError::Quarantine);
            },
        };
        checkpoint(&limits, work, control, &mut last_observed_at, 1)?;
        if bytes.len() != length {
            return Err(PgPackPromotionError::Quarantine);
        }
        proof {
            law_range_answers_its_bytes::<Q>(fence, content, offset, length, bytes);
        }
        digest.update(bytes.as_slice());
        crate::bytes::append_bytes(&mut data, bytes.as_slice());
        assert(content.take(offset as int) + bytes@ =~= content.take(offset + length));
        offset = offset + length as u64;
    }
    if !digest.finish(target.pack_checksum) {
        return Err(PgPackPromotionError::Checksum);
    }
    if !check_distinct(&validated.index) {
        return Err(PgPackPromotionError::Binding);
    }
    let index = convert_index(&validated.index);
    checkpoint(&limits, work, control, &mut last_observed_at, index.len() as u64)?;
    let pack = StoredPack {
        metadata: StoredPackMetadata {
            pack_checksum: target.pack_checksum,
            index_checksum: target.index_checksum,
            object_count: target.object_count,
            size_bytes: total,
            storage_order: 0,
        },
        data,
        index,
    };
    Ok(
        PgPackPromotionStage {
            scope: PromotionScope::of(prepared, fence, target),
            pack,
            storage: PgPackPromotionStorage::Database,
        },
    )
}

/// Stage one validated push PACK and install it in one transaction.
///
/// No ref, reflog or quarantine is changed. A failure leaves the source quarantine sealed.
pub fn promote_pg_push_pack<
    B: PgPackPromotionBackend,
    Q: PackQuarantine,
    W: PgPackPromotionWork,
    C: PgPackPromotionControl,
>(
    backend: &mut B,
    prepared: &PreparedPush,
    validated: &ValidatedPushPack,
    quarantine: &mut Q,
    fence: QuarantineFence,
    limits: PgPackPromotionLimits,
    work: &mut W,
    control: &mut C,
) -> (result: Result<PgPackPromotionReceipt, PgPackPromotionError>)
    ensures
        final(quarantine).content() == old(quarantine).content(),
        final(quarantine).steps() == old(quarantine).steps(),
        reads_under(fence, old(quarantine).ranges(), final(quarantine).ranges()),
        work_kept(
            old(work).allowance(),
            final(work).allowance(),
            result is Err && result->Err_0 == PgPackPromotionError::WorkBudget,
            staging_work(*prepared, *validated, old(quarantine).described(), fence, limits),
        ),
        *final(backend) == *old(backend) ==> result is Err,
        *final(backend) != *old(backend) ==> {
            let stage = final(backend).staged().last();
            &&& final(backend).staged() == old(backend).staged().push(stage)
            &&& limits.valid()
            &&& answered_under::<Q>(
                    fence,
                    old(quarantine).content(),
                    0,
                    pg_target(
                        *prepared,
                        *validated,
                        old(quarantine).described(),
                        fence,
                        limits,
                    ).manifest.pack_bytes as int,
                )
            &&& staging_cleared::<W, C>(
                limits,
                pg_target(
                    *prepared,
                    *validated,
                    old(quarantine).described(),
                    fence,
                    limits,
                ).manifest.pack_bytes,
                validated.index@.len() as u64,
            )
            &&& pg_fault(
                *prepared,
                *validated,
                old(quarantine).described(),
                fence,
                limits,
            ) is None
            &&& stage_of(
                stage,
                *prepared,
                *validated,
                fence,
                pg_target(*prepared, *validated, old(quarantine).described(), fence, limits),
                old(quarantine).content(),
            )
            &&& match result {
                Ok(receipt) => final(backend).answered(stage, Ok(receipt)),
                Err(fault) => exists|error: PgPackPromotionInstallError|
                    fault == #[trigger] install_error(error) && final(backend).answered(
                        stage,
                        Err(error),
                    ),
            }
        },
        result is Err && *final(backend) == *old(backend) ==> staging_failed::<Q, W, C>(
            *prepared,
            *validated,
            old(quarantine).described(),
            fence,
            limits,
            old(quarantine).content(),
            result->Err_0,
        ),
{
    let ghost before = *backend;
    let stage = stage_pg_push_pack(prepared, validated, quarantine, fence, limits, work, control)?;
    match backend.install_promoted_push_pack(stage) {
        Ok(receipt) => {
            assert(backend.staged().len() != before.staged().len());
            Ok(receipt)
        },
        Err(error) => {
            assert(backend.staged().len() != before.staged().len());
            let mapped = map_install_error(error);
            assert(mapped == install_error(error));
            Err(mapped)
        },
    }
}

} // verus!
