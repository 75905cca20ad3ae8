//! Bounded generation-aware fetch negotiation and metadata-only object closure.
//!
//! The plan is made in two phases from indexed metadata alone. First the ancestry of the haves is
//! walked into one exclusion set and the ancestry of the wants is walked outside it; then the trees
//! of the selected commits are expanded. Blob payloads are never read.

use crate::object::{HashAlgo, ObjectId, ObjectKind};
use crate::oid_map::OidMap;
use crate::pack_stream::CancellationProbe;
use std::collections::VecDeque;
use vstd::prelude::*;

verus! {

/// Stable repository-local object ordinal hint, tied to an index generation.
#[derive(Clone, Copy, Debug, PartialEq, Eq, Structural)]
pub struct StableObjectOrdinal {
    /// Ordinal-index generation; ordinals of different generations never alias.
    pub index_generation: u64,
    /// Zero-based stable object ordinal.
    pub ordinal: u64,
}

/// Indexed parent edge.
#[derive(Clone, Copy, Debug, PartialEq, Eq, Structural)]
pub struct NegotiationCommitParent {
    /// Parent commit.
    pub oid: ObjectId,
    /// Indexed parent generation.
    pub generation: Option<u32>,
    /// Stable parent ordinal.
    pub ordinal: Option<StableObjectOrdinal>,
}

/// Indexed commit row.
#[derive(Debug)]
pub struct NegotiationCommit {
    /// Commit.
    pub oid: ObjectId,
    /// Root tree.
    pub tree: ObjectId,
    /// Stable ordinal of the root tree.
    pub tree_ordinal: Option<StableObjectOrdinal>,
    /// Parents in commit order.
    pub parents: Vec<NegotiationCommitParent>,
    /// Topological generation.
    pub generation: Option<u32>,
    /// Commit payload bytes.
    pub size_bytes: u64,
    /// Stable ordinal.
    pub ordinal: Option<StableObjectOrdinal>,
}

/// Direct tree child.
#[derive(Clone, Copy, Debug, PartialEq, Eq, Structural)]
pub struct NegotiationTreeEntry {
    /// Child object.
    pub oid: ObjectId,
    /// Child kind.
    pub kind: ObjectKind,
    /// Child payload bytes; required for blobs and ignored for trees.
    pub size_bytes: Option<u64>,
    /// Entry mode; gitlinks stay outside the closure.
    pub mode: u32,
    /// Stable ordinal.
    pub ordinal: Option<StableObjectOrdinal>,
}

/// Indexed tree row.
#[derive(Debug)]
pub struct NegotiationTree {
    /// Tree.
    pub oid: ObjectId,
    /// Encoded tree bytes.
    pub size_bytes: u64,
    /// Stable ordinal.
    pub ordinal: Option<StableObjectOrdinal>,
    /// Direct children in tree order.
    pub entries: Vec<NegotiationTreeEntry>,
}

/// Source of indexed metadata.
pub trait NegotiationMetadataSource {
    /// Metadata failure.
    type Error;

    /// What the source serves; reading does not change it.
    closed spec fn catalogue(&self) -> nat {
        0
    }

    /// The commits read so far.
    closed spec fn commit_reads(&self) -> Seq<ObjectId> {
        Seq::empty()
    }

    /// The trees read so far.
    closed spec fn tree_reads(&self) -> Seq<ObjectId> {
        Seq::empty()
    }

    /// A source that serves this answers a commit read this way.
    closed spec fn answers_commit(
        catalogue: nat,
        oid: ObjectId,
        max_parents: usize,
        answer: Result<Option<NegotiationCommit>, Self::Error>,
    ) -> bool {
        true
    }

    /// A source that serves this answers a tree read this way.
    closed spec fn answers_tree(
        catalogue: nat,
        oid: ObjectId,
        max_entries: usize,
        answer: Result<Option<NegotiationTree>, Self::Error>,
    ) -> bool {
        true
    }

    /// Read one commit row with at most `max_parents` parents; `None` means that the object is no
    /// indexed commit.
    fn read_commit(&mut self, oid: &ObjectId, max_parents: usize) -> (result: Result<
        Option<NegotiationCommit>,
        Self::Error,
    >)
        ensures
            Self::answers_commit(old(self).catalogue(), *oid, max_parents, result),
            final(self).catalogue() == old(self).catalogue(),
            final(self).commit_reads() == old(self).commit_reads().push(*oid),
            final(self).tree_reads() == old(self).tree_reads(),
    ;

    /// Read one tree row with at most `max_entries` children.
    fn read_tree(&mut self, oid: &ObjectId, max_entries: usize) -> (result: Result<
        Option<NegotiationTree>,
        Self::Error,
    >)
        ensures
            Self::answers_tree(old(self).catalogue(), *oid, max_entries, result),
            final(self).catalogue() == old(self).catalogue(),
            final(self).tree_reads() == old(self).tree_reads().push(*oid),
            final(self).commit_reads() == old(self).commit_reads(),
    ;
}

/// Membership set outside main memory, keyed by object identities only.
pub trait NegotiationSpillSet {
    /// Spill failure.
    type Error;

    /// The identities stored.
    closed spec fn members(&self) -> Set<ObjectId> {
        Set::empty()
    }

    /// The purpose that the set was made for.
    closed spec fn purpose(&self) -> NegotiationSpillRole {
        NegotiationSpillRole::ExcludedCommits
    }

    /// An operation may fail with this cause.
    closed spec fn fails(error: Self::Error) -> bool {
        true
    }

    /// A set for this purpose was cleared, and answered so.
    closed spec fn clears(role: NegotiationSpillRole, answer: Result<(), Self::Error>) -> bool {
        true
    }

    /// An insertion may be answered as one of an identity that is there already.
    closed spec fn repeats() -> bool {
        true
    }

    /// Return whether an identity is present.
    fn contains(&mut self, oid: &ObjectId) -> (result: Result<bool, Self::Error>)
        ensures
            result matches Err(error) ==> Self::fails(error),
            final(self).members() == old(self).members(),
            final(self).purpose() == old(self).purpose(),
            result is Ok ==> result->Ok_0 == old(self).members().contains(*oid),
    ;

    /// Insert an identity and return whether it is new.
    fn insert(&mut self, oid: ObjectId) -> (result: Result<bool, Self::Error>)
        ensures
            result matches Err(error) ==> Self::fails(error),
            result matches Ok(inserted) ==> inserted || Self::repeats(),
            final(self).purpose() == old(self).purpose(),
            result is Ok ==> result->Ok_0 == !old(self).members().contains(oid)
                && final(self).members() == old(self).members().insert(oid),
    ;

    /// Remove all temporary state; repeating it is harmless.
    fn clear(&mut self) -> (result: Result<(), Self::Error>)
        ensures
            result matches Err(error) ==> Self::fails(error),
            result is Ok ==> final(self).members() == Set::<ObjectId>::empty(),
            final(self).purpose() == old(self).purpose(),
            Self::clears(old(self).purpose(), result),
    ;
}

/// Purpose of an isolated spill set.
#[derive(Clone, Copy, Debug, PartialEq, Eq, Structural)]
pub enum NegotiationSpillRole {
    /// Commits reachable from accepted haves.
    ExcludedCommits,
    /// Commits visited from wants.
    VisitedCommits,
    /// Selected objects.
    SelectedObjects,
}

/// Factory of isolated spill sets, scoped to one request.
pub trait NegotiationSpillFactory {
    /// Spill failure.
    type Error;

    /// Spill set.
    type Set: NegotiationSpillSet<Error = Self::Error>;

    /// The purposes of the sets made so far.
    closed spec fn created(&self) -> Seq<NegotiationSpillRole> {
        Seq::empty()
    }

    /// The creation of a set may fail with this cause.
    closed spec fn refuses(role: NegotiationSpillRole, error: Self::Error) -> bool {
        true
    }

    /// Create an empty set for one role.
    fn create(&mut self, role: NegotiationSpillRole) -> (result: Result<Self::Set, Self::Error>)
        ensures
            result matches Err(error) ==> Self::refuses(role, error),
            result is Ok ==> result->Ok_0.members() == Set::<ObjectId>::empty(),
            result matches Ok(set) ==> set.purpose() == role,
            final(self).created() == match result {
                Ok(_) => old(self).created().push(role),
                Err(_) => old(self).created(),
            },
    ;
}

/// Deterministic work budget.
pub trait NegotiationWorkBudget {
    /// A charge may be answered so.
    closed spec fn answers(units: u64, charged: bool) -> bool {
        true
    }

    /// Charge work units; `false` means that traversal must stop.
    fn charge(&mut self, units: u64) -> (charged: bool)
        ensures
            Self::answers(units, charged),
    ;
}

/// Counter-based work budget.
#[derive(Clone, Copy, Debug, PartialEq, Eq, Structural)]
pub struct NegotiationWorkLimit {
    remaining: u64,
    checkpoints: u64,
}

impl NegotiationWorkLimit {
    /// Units left.
    pub closed spec fn left(self) -> u64 {
        self.remaining
    }

    /// Charges made.
    pub closed spec fn charges(self) -> u64 {
        self.checkpoints
    }

    /// Create an exact allowance.
    pub fn new(units: u64) -> (limit: Self)
        ensures
            limit.left() == units,
            limit.charges() == 0,
    {
        NegotiationWorkLimit { remaining: units, checkpoints: 0 }
    }

    /// Return the units left.
    pub fn remaining(&self) -> (units: u64)
        ensures
            units == self.left(),
    {
        self.remaining
    }

    /// Return the number of charges, including a rejected one.
    pub fn checkpoints(&self) -> (count: u64)
        ensures
            count == self.charges(),
    {
        self.checkpoints
    }
}

impl NegotiationWorkBudget for NegotiationWorkLimit {
    /// A charge of nothing is never refused.
    open spec fn answers(units: u64, charged: bool) -> bool {
        charged || units > 0
    }

    fn charge(&mut self, units: u64) -> (charged: bool)
        ensures
            charged == (units <= old(self).left()),
            final(self).left() == if charged {
                (old(self).left() - units) as u64
            } else {
                old(self).left()
            },
            final(self).charges() == if old(self).charges() == u64::MAX {
                u64::MAX
            } else {
                (old(self).charges() + 1) as u64
            },
    {
        self.checkpoints = self.checkpoints.saturating_add(1);
        if units > self.remaining {
            return false;
        }
        self.remaining = self.remaining - units;
        true
    }
}

/// Negotiation limits.
#[derive(Clone, Copy, Debug, PartialEq, Eq, Structural)]
pub struct NegotiationLimits {
    /// Maximum wants.
    pub max_wants: usize,
    /// Maximum haves.
    pub max_haves: usize,
    /// Maximum commit rows read over both walks.
    pub max_visited_commits: usize,
    /// Maximum parents of one commit row.
    pub max_commit_parents: usize,
    /// Maximum selected objects.
    pub max_selected_objects: usize,
    /// Maximum selected payload bytes.
    pub max_selected_bytes: u64,
    /// Maximum children of one tree row.
    pub max_tree_entries: usize,
    /// Membership entries kept in memory before they move to spill.
    pub spill_threshold_entries: usize,
    /// Maximum estimated bytes over all membership sets in memory.
    pub max_membership_bytes: u64,
    /// Maximum stable ordinal.
    pub max_stable_ordinal: u64,
}

/// Limit that stopped planning.
#[derive(Clone, Copy, Debug, PartialEq, Eq, Structural)]
pub enum NegotiationLimitKind {
    /// A limit is zero.
    Configuration,
    /// Too many wants.
    Wants,
    /// Too many haves.
    Haves,
    /// Too many commit visits.
    VisitedCommits,
    /// Too many parents in one row.
    CommitParents,
    /// Too many selected objects.
    SelectedObjects,
    /// Too many selected payload bytes.
    SelectedBytes,
    /// Too many children in one row.
    TreeEntries,
    /// Membership state does not fit.
    Membership,
    /// A stable ordinal is too large.
    StableOrdinal,
    /// The work budget is exhausted.
    Work,
}

/// Limits of a default configuration.
pub open spec fn default_limits() -> NegotiationLimits {
    NegotiationLimits {
        max_wants: 65_536,
        max_haves: 262_144,
        max_visited_commits: 2_000_000,
        max_commit_parents: 1_000_000,
        max_selected_objects: 5_000_000,
        max_selected_bytes: 137_438_953_472,
        max_tree_entries: 1_000_000,
        spill_threshold_entries: 250_000,
        max_membership_bytes: 134_217_728,
        max_stable_ordinal: 100_000_000,
    }
}

impl Default for NegotiationLimits {
    fn default() -> (limits: Self)
        ensures
            limits == default_limits(),
    {
        NegotiationLimits {
            max_wants: 65_536,
            max_haves: 262_144,
            max_visited_commits: 2_000_000,
            max_commit_parents: 1_000_000,
            max_selected_objects: 5_000_000,
            max_selected_bytes: 137_438_953_472,
            max_tree_entries: 1_000_000,
            spill_threshold_entries: 250_000,
            max_membership_bytes: 134_217_728,
            max_stable_ordinal: 100_000_000,
        }
    }
}

impl NegotiationLimits {
    /// No limit is zero.
    pub open spec fn valid(self) -> bool {
        &&& self.max_wants > 0
        &&& self.max_haves > 0
        &&& self.max_visited_commits > 0
        &&& self.max_commit_parents > 0
        &&& self.max_selected_objects > 0
        &&& self.max_selected_bytes > 0
        &&& self.max_tree_entries > 0
        &&& self.spill_threshold_entries > 0
        &&& self.max_membership_bytes > 0
        &&& self.max_stable_ordinal > 0
    }

    /// Reject limits of zero.
    pub fn validate(self) -> (result: Result<Self, NegotiationLimitKind>)
        ensures
            result == if self.valid() {
                Ok::<Self, NegotiationLimitKind>(self)
            } else {
                Err(NegotiationLimitKind::Configuration)
            },
    {
        if self.max_wants == 0 || self.max_haves == 0 || self.max_visited_commits == 0
            || self.max_commit_parents == 0 || self.max_selected_objects == 0
            || self.max_selected_bytes == 0 || self.max_tree_entries == 0
            || self.spill_threshold_entries == 0 || self.max_membership_bytes == 0
            || self.max_stable_ordinal == 0 {
            return Err(NegotiationLimitKind::Configuration);
        }
        Ok(self)
    }
}

/// The default limits may be used.
pub proof fn law_default_limits_are_valid()
    ensures
        default_limits().valid(),
{
}

/// Negotiation failure; no output has been made.
#[derive(Debug)]
pub enum NegotiationError<ME, SE> {
    /// The metadata source failed.
    Metadata(ME),
    /// A spill set failed.
    Spill(SE),
    /// A limit was reached.
    Limit(NegotiationLimitKind),
    /// A required row is missing.
    MissingMetadata,
    /// A row disagrees with the request or with itself.
    CorruptMetadata,
    /// Cancellation was observed.
    Cancelled,
}

/// Selected commits and objects.
#[derive(Debug)]
pub struct NegotiationPlan {
    /// Haves in caller order without repetition.
    pub common_haves: Vec<ObjectId>,
    /// Selected commits in traversal order.
    pub commits: Vec<ObjectId>,
    /// Selected commits, trees and blobs.
    pub objects: Vec<ObjectId>,
    /// Selected payload bytes.
    pub selected_bytes: u64,
    /// Commit rows read.
    pub commit_metadata_reads: u64,
    /// Tree rows read.
    pub tree_metadata_reads: u64,
    /// Whether any parent had an indexed generation.
    pub used_generations: bool,
    /// Whether any membership set moved to spill.
    pub spilled: bool,
}

/// Request identities are nonzero and share the algorithm of the first.
pub open spec fn request_ids_agree(wants: Seq<ObjectId>, haves: Seq<ObjectId>) -> bool {
    let all = wants + haves;
    forall|i: int|
        0 <= i < all.len() ==> !(#[trigger] all[i]).spec_is_zero() && all[i].spec_algo()
            == all[0].spec_algo()
}

/// Check identities against one algorithm.
fn ids_agree(ids: &[ObjectId], algo: HashAlgo) -> (agree: bool)
    ensures
        agree == forall|i: int|
            0 <= i < ids@.len() ==> !(#[trigger] ids@[i]).spec_is_zero() && ids@[i].spec_algo()
                == algo,
{
    let mut at: usize = 0;
    while at < ids.len()
        invariant
            at <= ids@.len(),
            forall|i: int|
                0 <= i < at ==> !(#[trigger] ids@[i]).spec_is_zero() && ids@[i].spec_algo() == algo,
        decreases ids.len() - at,
    {
        if ids[at].is_zero() || ids[at].algo() != algo {
            return false;
        }
        at = at + 1;
    }
    true
}

/// Check the identities of a request.
pub fn validate_request_ids<ME, SE>(wants: &[ObjectId], haves: &[ObjectId]) -> (result: Result<
    (),
    NegotiationError<ME, SE>,
>)
    ensures
        result == if request_ids_agree(wants@, haves@) {
            Ok::<(), NegotiationError<ME, SE>>(())
        } else {
            Err(NegotiationError::CorruptMetadata)
        },
{
    let ghost all = wants@ + haves@;
    let algo: HashAlgo = if wants.len() > 0 {
        wants[0].algo()
    } else if haves.len() > 0 {
        haves[0].algo()
    } else {
        return Ok(());
    };
    let agree: bool = ids_agree(wants, algo) && ids_agree(haves, algo);
    proof {
        assert(algo == all[0].spec_algo());
        if agree {
            assert(request_ids_agree(wants@, haves@));
        } else if request_ids_agree(wants@, haves@) {
            assert forall|i: int| 0 <= i < wants@.len() implies !(
            #[trigger] wants@[i]).spec_is_zero() && wants@[i].spec_algo() == algo by {
                assert(all[i] == wants@[i]);
            }
            assert forall|i: int| 0 <= i < haves@.len() implies !(
            #[trigger] haves@[i]).spec_is_zero() && haves@[i].spec_algo() == algo by {
                assert(all[wants@.len() + i] == haves@[i]);
            }
        }
    }
    if !agree {
        return Err(NegotiationError::CorruptMetadata);
    }
    Ok(())
}

/// Observe cancellation, then charge one unit.
fn checkpoint<ME, SE, B: NegotiationWorkBudget, C: CancellationProbe>(
    budget: &mut B,
    cancellation: &C,
) -> (result: Result<(), NegotiationError<ME, SE>>)
    ensures
        match result {
            Ok(()) => granted::<B, C>(),
            Err(error) => stopped::<ME, SE, B, C>(error),
        },
{
    if cancellation.is_cancelled() {
        return Err(NegotiationError::Cancelled);
    }
    if !budget.charge(1) {
        return Err(NegotiationError::Limit(NegotiationLimitKind::Work));
    }
    Ok(())
}

/// The identities in order of first occurrence.
pub open spec fn first_occurrences(ids: Seq<ObjectId>) -> Seq<ObjectId>
    decreases ids.len(),
{
    if ids.len() == 0 {
        ids
    } else {
        let front = first_occurrences(ids.drop_last());
        if front.contains(ids.last()) {
            front
        } else {
            front.push(ids.last())
        }
    }
}

/// Removing repetitions keeps every identity and leaves no repetition.
pub proof fn law_first_occurrences(ids: Seq<ObjectId>)
    ensures
        first_occurrences(ids).no_duplicates(),
        first_occurrences(ids).to_set() == ids.to_set(),
        first_occurrences(ids).len() <= ids.len(),
    decreases ids.len(),
{
    if ids.len() == 0 {
    } else {
        let front = first_occurrences(ids.drop_last());
        let all = first_occurrences(ids);
        law_first_occurrences(ids.drop_last());
        assert(ids == ids.drop_last().push(ids.last()));
        assert forall|x: ObjectId| all.contains(x) <==> ids.contains(x) by {
            assert(front.to_set().contains(x) <==> ids.drop_last().to_set().contains(x));
            if all.contains(x) {
                let k = choose|k: int| 0 <= k < all.len() && all[k] == x;
                if k < front.len() {
                    assert(front[k] == x);
                    assert(front.contains(x));
                    let j = choose|j: int|
                        0 <= j < ids.drop_last().len() && ids.drop_last()[j] == x;
                    assert(ids[j] == x);
                } else {
                    assert(ids[ids.len() - 1] == x);
                }
            }
            if ids.contains(x) {
                let j = choose|j: int| 0 <= j < ids.len() && ids[j] == x;
                if j < ids.len() - 1 {
                    assert(ids.drop_last()[j] == x);
                    assert(ids.drop_last().contains(x));
                    let k = choose|k: int| 0 <= k < front.len() && front[k] == x;
                    assert(all[k] == x);
                } else if front.contains(x) {
                    let k = choose|k: int| 0 <= k < front.len() && front[k] == x;
                    assert(all[k] == x);
                } else {
                    assert(all[all.len() - 1] == x);
                }
            }
        }
        assert(all.to_set() =~= ids.to_set());
    }
}

/// Remove repeated roots, within the membership estimate.
fn dedupe_roots<ME, SE, B: NegotiationWorkBudget, C: CancellationProbe>(
    roots: &[ObjectId],
    max_membership_bytes: u64,
    budget: &mut B,
    cancellation: &C,
) -> (result: Result<Vec<ObjectId>, NegotiationError<ME, SE>>)
    ensures
        result matches Err(error) ==> stopped::<ME, SE, B, C>(error) || error
            == NegotiationError::<ME, SE>::Limit(NegotiationLimitKind::Membership) && (
        roots@.len() * 64 > max_membership_bytes || max_membership_bytes > usize::MAX),
        result is Ok && roots@.len() > 0 ==> granted::<B, C>(),
        roots@.len() * 64 > max_membership_bytes ==> result == Err::<
            Vec<ObjectId>,
            NegotiationError<ME, SE>,
        >(NegotiationError::Limit(NegotiationLimitKind::Membership)),
        roots@.len() == 0 ==> result is Ok,
        result is Ok ==> result->Ok_0@ == first_occurrences(roots@),
{
    match roots.len().checked_mul(64) {
        Some(bytes) => {
            if bytes as u64 > max_membership_bytes {
                return Err(NegotiationError::Limit(NegotiationLimitKind::Membership));
            }
        },
        None => {
            return Err(NegotiationError::Limit(NegotiationLimitKind::Membership));
        },
    }
    let mut seen = OidMap::new();
    let mut ordered: Vec<ObjectId> = Vec::new();
    let mut at: usize = 0;
    assert(roots@.take(0) =~= Seq::<ObjectId>::empty());
    while at < roots.len()
        invariant
            at <= roots@.len(),
            roots@.len() * 64 <= max_membership_bytes,
            at > 0 ==> granted::<B, C>(),
            ordered@ == first_occurrences(roots@.take(at as int)),
            forall|x: ObjectId| seen@.dom().contains(x) <==> ordered@.contains(x),
        decreases roots.len() - at,
    {
        checkpoint(budget, cancellation)?;
        let oid: ObjectId = roots[at];
        proof {
            let next = roots@.take(at + 1);
            assert(next.drop_last() =~= roots@.take(at as int));
            assert(next.last() == oid);
        }
        let ghost before = ordered@;
        if seen.insert_new(oid, 0) {
            ordered.push(oid);
            proof {
                assert forall|x: ObjectId| seen@.dom().contains(x) <==> ordered@.contains(x) by {
                    if before.contains(x) {
                        let k = choose|k: int| 0 <= k < before.len() && before[k] == x;
                        assert(ordered@[k] == x);
                    }
                    assert(ordered@[before.len() as int] == oid);
                }
            }
        }
        at = at + 1;
    }
    assert(roots@.take(at as int) =~= roots@);
    Ok(ordered)
}

/// One queued commit.
#[derive(Clone, Copy, Debug, PartialEq, Eq, Structural)]
pub struct CommitQueueItem {
    /// Commit.
    pub oid: ObjectId,
    /// Generation by which the queue is ordered; zero where none is indexed.
    pub generation: u32,
    /// Indexed generation.
    pub indexed_generation: Option<u32>,
    /// Stable ordinal.
    pub ordinal: Option<StableObjectOrdinal>,
    /// Insertion number.
    pub sequence: u64,
}

impl CommitQueueItem {
    /// The item of a root.
    pub open spec fn spec_root(oid: ObjectId, sequence: u64) -> CommitQueueItem {
        CommitQueueItem { oid, generation: 0, indexed_generation: None, ordinal: None, sequence }
    }

    /// The item of a parent edge.
    pub open spec fn spec_parent(parent: NegotiationCommitParent, sequence: u64) -> CommitQueueItem {
        CommitQueueItem {
            oid: parent.oid,
            generation: match parent.generation {
                Some(generation) => generation,
                None => 0,
            },
            indexed_generation: parent.generation,
            ordinal: parent.ordinal,
            sequence,
        }
    }

    /// The rank of an item: higher generations first, then lower insertion numbers.
    pub open spec fn rank(self) -> int {
        self.generation * 0x1_0000_0000_0000_0000 - self.sequence
    }

    /// Queue a root.
    pub fn new(oid: ObjectId, sequence: u64) -> (item: Self)
        ensures
            item == CommitQueueItem::spec_root(oid, sequence),
    {
        CommitQueueItem { oid, generation: 0, indexed_generation: None, ordinal: None, sequence }
    }

    /// Queue a parent.
    pub fn parent(parent: NegotiationCommitParent, sequence: u64) -> (item: Self)
        ensures
            item == CommitQueueItem::spec_parent(parent, sequence),
    {
        CommitQueueItem {
            oid: parent.oid,
            generation: match parent.generation {
                Some(generation) => generation,
                None => 0,
            },
            indexed_generation: parent.generation,
            ordinal: parent.ordinal,
            sequence,
        }
    }

    /// Compare two ranks.
    fn ranks_below(&self, other: &CommitQueueItem) -> (below: bool)
        ensures
            below == (self.rank() < other.rank()),
    {
        self.generation < other.generation || (self.generation == other.generation && self.sequence
            > other.sequence)
    }
}

/// Commits waiting for a visit, of which the highest rank comes first.
pub struct CommitQueue {
    items: Vec<CommitQueueItem>,
}

impl CommitQueue {
    /// The waiting items.
    pub closed spec fn items(self) -> Seq<CommitQueueItem> {
        self.items@
    }

    #[verifier::type_invariant]
    spec fn sorted(self) -> bool {
        forall|i: int, j: int|
            #![trigger self.items@[i], self.items@[j]]
            0 <= i < j < self.items@.len() ==> self.items@[i].rank() <= self.items@[j].rank()
    }

    /// Create an empty queue.
    pub fn new() -> (queue: Self)
        ensures
            queue.items() == Seq::<CommitQueueItem>::empty(),
    {
        CommitQueue { items: Vec::new() }
    }

    /// Add an item, unless the queue is full.
    pub fn push(&mut self, item: CommitQueueItem, maximum: usize) -> (result: Result<
        (),
        NegotiationLimitKind,
    >)
        ensures
            result == if old(self).items().len() >= maximum {
                Err::<(), NegotiationLimitKind>(NegotiationLimitKind::VisitedCommits)
            } else {
                Ok(())
            },
            result is Err ==> *final(self) == *old(self),
            result is Ok ==> {
                &&& final(self).items().len() == old(self).items().len() + 1
                &&& forall|x: CommitQueueItem|
                    #![trigger final(self).items().contains(x)]
                    final(self).items().contains(x) <==> old(self).items().contains(x) || x == item
            },
    {
        if self.items.len() >= maximum {
            return Err(NegotiationLimitKind::VisitedCommits);
        }
        proof {
            use_type_invariant(&*self);
        }
        let mut items: Vec<CommitQueueItem> = Vec::new();
        std::mem::swap(&mut items, &mut self.items);
        let ghost before = items@;
        let mut at: usize = items.len();
        while at > 0 && item.ranks_below(&items[at - 1])
            invariant
                at <= items@.len(),
                items@ == before,
                forall|i: int| at <= i < items@.len() ==> item.rank() < (#[trigger] items@[i]).rank(),
            decreases at,
        {
            at = at - 1;
        }
        assert(at > 0 ==> items@[at - 1].rank() <= item.rank());
        items.insert(at, item);
        proof {
            let after = items@;
            assert(after == before.insert(at as int, item));
            assert(after[at as int] == item);
            assert forall|x: CommitQueueItem| after.contains(x) <==> before.contains(x) || x
                == item by {
                if before.contains(x) {
                    let k = choose|k: int| 0 <= k < before.len() && before[k] == x;
                    if k < at {
                        assert(after[k] == x);
                    } else {
                        assert(after[k + 1] == x);
                    }
                }
                if after.contains(x) && x != item {
                    let k = choose|k: int| 0 <= k < after.len() && after[k] == x;
                    if k < at {
                        assert(before[k] == x);
                    } else {
                        assert(before[k - 1] == x);
                    }
                }
            }
            assert forall|i: int, j: int|
                #![trigger after[i], after[j]]
                0 <= i < j < after.len() implies after[i].rank() <= after[j].rank() by {
                if j < at {
                    assert(after[i] == before[i] && after[j] == before[j]);
                } else if i < at {
                    assert(after[i] == before[i]);
                    assert(before[i].rank() <= before[at - 1].rank());
                    if j > at {
                        assert(after[j] == before[j - 1]);
                    }
                } else {
                    assert(after[j] == before[j - 1]);
                    if i > at {
                        assert(after[i] == before[i - 1]);
                    }
                }
            }
        }
        self.items = items;
        Ok(())
    }

    /// Take the item of highest rank.
    pub fn pop(&mut self) -> (item: Option<CommitQueueItem>)
        ensures
            item is None <==> old(self).items().len() == 0,
            item is None ==> final(self).items() == old(self).items(),
            item is Some ==> {
                &&& old(self).items().contains(item->0)
                &&& final(self).items().len() == old(self).items().len() - 1
                &&& forall|x: CommitQueueItem|
                    #![trigger final(self).items().contains(x)]
                    final(self).items().contains(x) ==> old(self).items().contains(x)
                &&& forall|x: CommitQueueItem|
                    #![trigger old(self).items().contains(x)]
                    old(self).items().contains(x) ==> x.rank() <= item->0.rank() && (x == item->0
                        || final(self).items().contains(x))
            },
    {
        proof {
            use_type_invariant(&*self);
        }
        if self.items.len() == 0 {
            return None;
        }
        let ghost before = self.items@;
        let mut items: Vec<CommitQueueItem> = Vec::new();
        std::mem::swap(&mut items, &mut self.items);
        let item = items.pop();
        proof {
            let after = items@;
            let top = before[before.len() - 1];
            assert(item == Some(top));
            assert(before.contains(top));
            assert forall|x: CommitQueueItem| #[trigger] after.contains(x) implies before.contains(
                x,
            ) by {
                let k = choose|k: int| 0 <= k < after.len() && after[k] == x;
                assert(before[k] == x);
            }
            assert forall|x: CommitQueueItem| #[trigger] before.contains(x) implies x.rank()
                <= top.rank() && (x == top || after.contains(x)) by {
                let k = choose|k: int| 0 <= k < before.len() && before[k] == x;
                if k < after.len() {
                    assert(after[k] == x);
                    assert(before[k].rank() <= before[before.len() - 1].rank());
                }
            }
        }
        self.items = items;
        item
    }
}

/// Take the next insertion number.
pub fn take_sequence(sequence: &mut u64) -> (result: Result<u64, NegotiationLimitKind>)
    ensures
        result == if *old(sequence) == u64::MAX {
            Err::<u64, NegotiationLimitKind>(NegotiationLimitKind::VisitedCommits)
        } else {
            Ok(*old(sequence))
        },
        result is Ok ==> *final(sequence) == *old(sequence) + 1,
        result is Err ==> *final(sequence) == *old(sequence),
{
    let current: u64 = *sequence;
    match current.checked_add(1) {
        Some(next) => {
            *sequence = next;
            Ok(current)
        },
        None => Err(NegotiationLimitKind::VisitedCommits),
    }
}

/// Whether another commit row may be read.
pub fn ensure_commit_read_available<ME, SE>(reads: u64, limits: NegotiationLimits) -> (result: Result<
    (),
    NegotiationError<ME, SE>,
>)
    ensures
        result == if reads >= limits.max_visited_commits {
            Err::<(), NegotiationError<ME, SE>>(
                NegotiationError::Limit(NegotiationLimitKind::VisitedCommits),
            )
        } else {
            Ok(())
        },
{
    if reads >= limits.max_visited_commits as u64 {
        return Err(NegotiationError::Limit(NegotiationLimitKind::VisitedCommits));
    }
    Ok(())
}

/// A parent edge fits its commit row.
pub open spec fn parent_fits(
    parent: NegotiationCommitParent,
    child_generation: Option<u32>,
    algo: HashAlgo,
) -> bool {
    &&& !parent.oid.spec_is_zero()
    &&& parent.oid.spec_algo() == algo
    &&& parent.generation != Some(0u32)
    &&& child_generation is Some && parent.generation is Some ==> parent.generation->0
        <= child_generation->0
}

/// A commit row answers the queued request and agrees with itself.
pub open spec fn commit_fits(
    commit: NegotiationCommit,
    queued: CommitQueueItem,
    limits: NegotiationLimits,
) -> bool {
    let algo = queued.oid.spec_algo();
    &&& commit.oid == queued.oid
    &&& !commit.oid.spec_is_zero()
    &&& !commit.tree.spec_is_zero()
    &&& commit.tree.spec_algo() == algo
    &&& commit.parents@.len() <= limits.max_commit_parents
    &&& queued.ordinal is Some ==> commit.ordinal == queued.ordinal
    &&& queued.indexed_generation is Some ==> commit.generation == queued.indexed_generation
    &&& commit.generation != Some(0u32)
    &&& forall|i: int|
        0 <= i < commit.parents@.len() ==> parent_fits(
            #[trigger] commit.parents@[i],
            commit.generation,
            algo,
        )
}

/// Check every parent edge of a commit row.
fn parents_fit(
    parents: &Vec<NegotiationCommitParent>,
    child_generation: Option<u32>,
    algo: HashAlgo,
) -> (fit: bool)
    ensures
        fit == forall|i: int|
            0 <= i < parents@.len() ==> parent_fits(
                #[trigger] parents@[i],
                child_generation,
                algo,
            ),
{
    let mut at: usize = 0;
    while at < parents.len()
        invariant
            at <= parents@.len(),
            forall|i: int|
                0 <= i < at ==> parent_fits(#[trigger] parents@[i], child_generation, algo),
        decreases parents.len() - at,
    {
        let parent = parents[at];
        let ordered: bool = match (child_generation, parent.generation) {
            (Some(child), Some(generation)) => generation <= child && generation != 0,
            (None, Some(generation)) => generation != 0,
            _ => true,
        };
        if parent.oid.is_zero() || parent.oid.algo() != algo || !ordered {
            assert(!parent_fits(parents@[at as int], child_generation, algo));
            return false;
        }
        at = at + 1;
    }
    true
}

/// Check a commit row against the queued request.
pub fn validate_commit<ME, SE>(
    commit: &NegotiationCommit,
    queued: CommitQueueItem,
    limits: NegotiationLimits,
) -> (result: Result<(), NegotiationError<ME, SE>>)
    ensures
        result == if commit_fits(*commit, queued, limits) {
            Ok::<(), NegotiationError<ME, SE>>(())
        } else {
            Err(NegotiationError::CorruptMetadata)
        },
{
    let algo: HashAlgo = queued.oid.algo();
    let ordinal_agrees: bool = match queued.ordinal {
        Some(_) => commit.ordinal == queued.ordinal,
        None => true,
    };
    let generation_agrees: bool = match queued.indexed_generation {
        Some(_) => commit.generation == queued.indexed_generation,
        None => true,
    };
    if commit.oid != queued.oid || commit.oid.is_zero() || commit.tree.is_zero()
        || commit.parents.len() > limits.max_commit_parents || !ordinal_agrees
        || !generation_agrees || commit.tree.algo() != algo || commit.generation == Some(0u32)
        || !parents_fit(&commit.parents, commit.generation, algo) {
        return Err(NegotiationError::CorruptMetadata);
    }
    Ok(())
}

/// Estimated bytes of all membership entries in memory.
#[derive(Clone, Copy, Debug, PartialEq, Eq, Structural)]
pub struct MembershipMemory {
    /// Estimated bytes.
    pub estimated_bytes: u64,
}

impl MembershipMemory {
    /// Whether one more entry fits.
    pub fn can_reserve_entry(&self, limits: NegotiationLimits) -> (fits: bool)
        ensures
            fits == (self.estimated_bytes + 64 <= limits.max_membership_bytes),
    {
        match self.estimated_bytes.checked_add(64) {
            Some(bytes) => bytes <= limits.max_membership_bytes,
            None => false,
        }
    }

    /// Count one more entry.
    pub fn reserve_entry(&mut self, limits: NegotiationLimits) -> (result: Result<
        (),
        NegotiationLimitKind,
    >)
        ensures
            result == if old(self).estimated_bytes + 64 <= limits.max_membership_bytes {
                Ok::<(), NegotiationLimitKind>(())
            } else {
                Err(NegotiationLimitKind::Membership)
            },
            final(self).estimated_bytes == old(self).estimated_bytes + if result is Ok {
                64int
            } else {
                0
            },
    {
        if !self.can_reserve_entry(limits) {
            return Err(NegotiationLimitKind::Membership);
        }
        self.estimated_bytes = self.estimated_bytes + 64;
        Ok(())
    }

    /// Give entries back.
    pub fn release_entries(&mut self, entries: usize) -> (result: Result<(), NegotiationLimitKind>)
        ensures
            result == if entries * 64 <= old(self).estimated_bytes && entries * 64 <= usize::MAX {
                Ok::<(), NegotiationLimitKind>(())
            } else {
                Err(NegotiationLimitKind::Membership)
            },
            final(self).estimated_bytes == old(self).estimated_bytes - if result is Ok {
                entries * 64
            } else {
                0
            },
    {
        match entries.checked_mul(64) {
            Some(bytes) => {
                if bytes as u64 > self.estimated_bytes {
                    return Err(NegotiationLimitKind::Membership);
                }
                self.estimated_bytes = self.estimated_bytes - bytes as u64;
                Ok(())
            },
            None => Err(NegotiationLimitKind::Membership),
        }
    }
}

/// One membership set: in memory first, in a spill set once it has grown.
struct Membership<S: NegotiationSpillSet> {
    role: NegotiationSpillRole,
    stored: OidMap,
    ordinal_generation: Option<u64>,
    spill: Option<S>,
}

/// The identities in an optional spill set.
spec fn spilled_members<S: NegotiationSpillSet>(spill: Option<S>) -> Set<ObjectId> {
    match spill {
        Some(set) => set.members(),
        None => Set::empty(),
    }
}

/// A set for this purpose was cleared.
pub open spec fn cleared<S: NegotiationSpillSet>(role: NegotiationSpillRole) -> bool {
    exists|answer: Result<(), S::Error>| #[trigger] S::clears(role, answer)
}

/// A spill set is made for a membership set once, when its members move there.
spec fn set_kept<S: NegotiationSpillSet>(
    before: Membership<S>,
    after: Membership<S>,
    made: Seq<NegotiationSpillRole>,
    made_after: Seq<NegotiationSpillRole>,
) -> bool {
    &&& after.role == before.role
    &&& after.purposed()
    &&& before.spill is Some ==> after.spill is Some
    &&& made_after == if before.spill is None && after.spill is Some {
        made.push(before.role)
    } else {
        made
    }
}

/// As above; or a spill set was made, could not be filled, and was cleared.
spec fn set_left<S: NegotiationSpillSet>(
    before: Membership<S>,
    after: Membership<S>,
    made: Seq<NegotiationSpillRole>,
    made_after: Seq<NegotiationSpillRole>,
) -> bool {
    ||| set_kept(before, after, made, made_after)
    ||| {
        &&& after.role == before.role
        &&& before.spill is None
        &&& after.spill is None
        &&& made_after == made.push(before.role)
        &&& cleared::<S>(before.role)
    }
}

impl<S: NegotiationSpillSet> Membership<S> {
    /// A spill set was made for the purpose of the membership set.
    spec fn purposed(self) -> bool {
        self.spill matches Some(set) ==> set.purpose() == self.role
    }

    spec fn members(self) -> Set<ObjectId> {
        self.stored@.dom().union(spilled_members(self.spill))
    }

    /// Entries in memory.
    spec fn resident(self) -> int {
        self.stored@.dom().len() as int
    }

    fn new(role: NegotiationSpillRole) -> (membership: Self)
        ensures
            membership.members() == Set::<ObjectId>::empty(),
            membership.spill is None,
            membership.resident() == 0,
            membership.ordinal_generation is None,
            membership.role == role,
    {
        let membership = Membership {
            role,
            stored: OidMap::new(),
            ordinal_generation: None,
            spill: None,
        };
        assert(membership.members() =~= Set::<ObjectId>::empty());
        membership
    }

    fn spilled(&self) -> (spilled: bool)
        ensures
            spilled == (self.spill is Some),
    {
        self.spill.is_some()
    }

    /// Clear the spill set.
    fn cleanup(&mut self) -> (result: Result<(), S::Error>)
        ensures
            result is Ok ==> final(self).spill is None,
            old(self).spill is None ==> result is Ok,
            result matches Err(error) ==> S::fails(error),
            old(self).spill matches Some(set) ==> S::clears(set.purpose(), result),
    {
        match &mut self.spill {
            Some(spill) => {
                match spill.clear() {
                    Ok(done) => {
                        assert(done == ());
                    },
                    Err(error) => {
                        return Err(error);
                    },
                }
            },
            None => {},
        }
        self.spill = None;
        Ok(())
    }

    /// Check a stable ordinal against the limit and the generation seen first.
    fn validate_ordinal<ME, SE>(
        &mut self,
        ordinal: Option<StableObjectOrdinal>,
        limits: NegotiationLimits,
    ) -> (result: Result<(), NegotiationError<ME, SE>>)
        ensures
            final(self).members() == old(self).members(),
            final(self).spill == old(self).spill,
            result is Err ==> ordinal is Some,
            match ordinal_checked::<ME, SE>(old(self).ordinal_generation, ordinal, limits) {
                Ok(generation) => result is Ok && *final(self) == (Membership {
                    ordinal_generation: generation,
                    ..*old(self)
                }),
                Err(error) => result == Err::<(), NegotiationError<ME, SE>>(error) && *final(self)
                    == *old(self),
            },
    {
        let checked: Result<Option<u64>, NegotiationError<ME, SE>> = accept_ordinal(
            self.ordinal_generation,
            ordinal,
            limits,
        );
        match checked {
            Ok(generation) => {
                self.ordinal_generation = generation;
                Ok(())
            },
            Err(error) => Err(error),
        }
    }

    /// Return whether an identity is a member.
    fn contains<ME>(
        &mut self,
        oid: &ObjectId,
        ordinal: Option<StableObjectOrdinal>,
        limits: NegotiationLimits,
    ) -> (result: Result<bool, NegotiationError<ME, S::Error>>)
        ensures
            result matches Err(error) ==> member_fault::<ME, S>(
                old(self).ordinal_generation,
                ordinal,
                limits,
                error,
            ),
            result is Ok ==> ordinal_checked::<ME, S::Error>(
                old(self).ordinal_generation,
                ordinal,
                limits,
            ) == Ok::<Option<u64>, NegotiationError<ME, S::Error>>(final(self).ordinal_generation),
            final(self).members() == old(self).members(),
            final(self).stored == old(self).stored,
            final(self).spill is Some == old(self).spill is Some,
            final(self).role == old(self).role,
            old(self).purposed() ==> final(self).purposed(),
            result is Ok ==> result->Ok_0 == old(self).members().contains(*oid),
    {
        self.validate_ordinal(ordinal, limits)?;
        if self.stored.contains(*oid) {
            return Ok(true);
        }
        match &mut self.spill {
            Some(spill) => match spill.contains(oid) {
                Ok(found) => Ok(found),
                Err(error) => Err(NegotiationError::Spill(error)),
            },
            None => Ok(false),
        }
    }

    /// Add an identity and return whether it is new.
    fn insert<ME, F, B, C>(
        &mut self,
        oid: ObjectId,
        ordinal: Option<StableObjectOrdinal>,
        limits: NegotiationLimits,
        factory: &mut F,
        memory: &mut MembershipMemory,
        budget: &mut B,
        cancellation: &C,
    ) -> (result: Result<bool, NegotiationError<ME, S::Error>>) where
        F: NegotiationSpillFactory<Set = S, Error = S::Error>,
        B: NegotiationWorkBudget,
        C: CancellationProbe,

        requires
            old(memory).estimated_bytes >= 64 * old(self).resident(),
            old(self).purposed(),
        ensures
            if result is Ok {
                set_kept(*old(self), *final(self), old(factory).created(), final(factory).created())
            } else {
                set_left(*old(self), *final(self), old(factory).created(), final(factory).created())
            },
            result matches Err(error) ==> {
                ||| member_fault::<ME, S>(old(self).ordinal_generation, ordinal, limits, error)
                ||| storing_failed::<ME, F, B, C>(old(memory).estimated_bytes as int, error)
            },
            result is Ok ==> ordinal_checked::<ME, S::Error>(
                old(self).ordinal_generation,
                ordinal,
                limits,
            ) == Ok::<Option<u64>, NegotiationError<ME, S::Error>>(final(self).ordinal_generation),
            result is Ok ==> stored_next(
                *old(self),
                *final(self),
                old(memory).estimated_bytes as int,
                final(memory).estimated_bytes as int,
                limits,
                result->Ok_0,
            ),
            result is Ok ==> result->Ok_0 == !old(self).members().contains(oid),
            result is Ok ==> final(self).members() == old(self).members().insert(oid),
    {
        self.validate_ordinal(ordinal, limits)?;
        if self.stored.contains(oid) {
            assert(self.members() =~= old(self).members().insert(oid));
            return Ok(false);
        }
        let ghost before = self.members();
        let ghost domain = self.stored@.dom();
        match &mut self.spill {
            Some(spill) => {
                return match spill.insert(oid) {
                    Ok(inserted) => {
                        if inserted {
                            assert(domain.union(spill.members()) =~= before.insert(oid));
                            Ok(true)
                        } else {
                            Err(NegotiationError::CorruptMetadata)
                        }
                    },
                    Err(error) => Err(NegotiationError::Spill(error)),
                };
            },
            None => {},
        }
        if self.stored.len() >= limits.spill_threshold_entries || !memory.can_reserve_entry(
            limits,
        ) {
            return self.migrate_and_insert(oid, factory, memory, budget, cancellation);
        }
        match memory.reserve_entry(limits) {
            Ok(()) => {},
            Err(kind) => {
                return Err(NegotiationError::Limit(kind));
            },
        }
        let count: usize = self.stored.len();
        let inserted: bool = self.stored.insert_new(oid, 0);
        assert(self.stored@.dom() =~= domain.insert(oid));
        assert(self.members() =~= before.insert(oid));
        Ok(inserted)
    }

    /// Move every member to a spill set and add one more.
    fn migrate_and_insert<ME, F, B, C>(
        &mut self,
        oid: ObjectId,
        factory: &mut F,
        memory: &mut MembershipMemory,
        budget: &mut B,
        cancellation: &C,
    ) -> (result: Result<bool, NegotiationError<ME, S::Error>>) where
        F: NegotiationSpillFactory<Set = S, Error = S::Error>,
        B: NegotiationWorkBudget,
        C: CancellationProbe,

        requires
            old(self).spill is None,
            !old(self).members().contains(oid),
            old(memory).estimated_bytes >= 64 * old(self).resident(),
        ensures
            if result is Ok {
                set_kept(*old(self), *final(self), old(factory).created(), final(factory).created())
            } else {
                set_left(*old(self), *final(self), old(factory).created(), final(factory).created())
            },
            result matches Err(error) ==> storing_failed::<ME, F, B, C>(
                old(memory).estimated_bytes as int,
                error,
            ),
            result is Ok ==> {
                &&& final(self).spill is Some
                &&& final(self).resident() == 0
                &&& final(self).ordinal_generation == old(self).ordinal_generation
                &&& final(memory).estimated_bytes == old(memory).estimated_bytes - 64
                    * old(self).resident()
            },
            result is Ok ==> result->Ok_0,
            result is Ok ==> final(self).members() == old(self).members().insert(oid),
    {
        let mut spill = match factory.create(self.role) {
            Ok(spill) => spill,
            Err(error) => {
                return Err(NegotiationError::Spill(error));
            },
        };
        match fill_spill(&mut spill, &self.stored, oid, budget, cancellation) {
            Ok(()) => {},
            Err(error) => {
                let answer = spill.clear();
                assert(S::clears(self.role, answer));
                return Err(error);
            },
        }
        match memory.release_entries(self.stored.len()) {
            Ok(()) => {},
            Err(kind) => {
                let answer = spill.clear();
                assert(S::clears(self.role, answer));
                return Err(NegotiationError::Limit(kind));
            },
        }
        self.stored = OidMap::new();
        self.spill = Some(spill);
        assert(self.members() =~= old(self).members().insert(oid));
        Ok(true)
    }
}

/// Copy every member and one more identity into an empty spill set.
fn fill_spill<ME, S, B, C>(
    spill: &mut S,
    stored: &OidMap,
    oid: ObjectId,
    budget: &mut B,
    cancellation: &C,
) -> (result: Result<(), NegotiationError<ME, S::Error>>) where
    S: NegotiationSpillSet,
    B: NegotiationWorkBudget,
    C: CancellationProbe,

    requires
        old(spill).members() == Set::<ObjectId>::empty(),
    ensures
        result matches Err(error) ==> {
            ||| stopped::<ME, S::Error, B, C>(error)
            ||| error matches NegotiationError::Spill(cause) && S::fails(cause)
            ||| error == NegotiationError::<ME, S::Error>::CorruptMetadata && S::repeats()
        },
        result is Ok ==> final(spill).members() == stored@.dom().insert(oid),
        final(spill).purpose() == old(spill).purpose(),
{
    let keys: Vec<ObjectId> = stored.keys();
    let mut at: usize = 0;
    assert(keys@.take(0).to_set() =~= Set::<ObjectId>::empty());
    while at < keys.len()
        invariant
            at <= keys@.len(),
            spill.members() == keys@.take(at as int).to_set(),
            spill.purpose() == old(spill).purpose(),
        decreases keys.len() - at,
    {
        checkpoint(budget, cancellation)?;
        match spill.insert(keys[at]) {
            Ok(inserted) => {
                if !inserted {
                    return Err(NegotiationError::CorruptMetadata);
                }
            },
            Err(error) => {
                return Err(NegotiationError::Spill(error));
            },
        }
        proof {
            let next = keys@.take(at + 1);
            assert(next =~= keys@.take(at as int).push(keys@[at as int]));
            assert(next.to_set() =~= keys@.take(at as int).to_set().insert(keys@[at as int])) by {
                broadcast use vstd::seq_lib::group_seq_properties;

            }
        }
        at = at + 1;
    }
    assert(keys@.take(at as int) =~= keys@);
    match spill.insert(oid) {
        Ok(inserted) => {
            if !inserted {
                return Err(NegotiationError::CorruptMetadata);
            }
        },
        Err(error) => {
            return Err(NegotiationError::Spill(error));
        },
    }
    Ok(())
}

/// The generation to hold later ordinals to, or why an ordinal is refused: it is beyond the limit,
/// or of another generation than the one seen first.
pub open spec fn ordinal_checked<ME, SE>(
    generation: Option<u64>,
    ordinal: Option<StableObjectOrdinal>,
    limits: NegotiationLimits,
) -> Result<Option<u64>, NegotiationError<ME, SE>> {
    match ordinal {
        None => Ok(generation),
        Some(given) => if given.ordinal > limits.max_stable_ordinal {
            Err(NegotiationError::Limit(NegotiationLimitKind::StableOrdinal))
        } else if generation is Some && generation->0 != given.index_generation {
            Err(NegotiationError::CorruptMetadata)
        } else {
            Ok(Some(given.index_generation))
        },
    }
}

/// Check a stable ordinal against the limit and the generation seen first, and return the
/// generation to hold later ordinals to.
pub fn accept_ordinal<ME, SE>(
    generation: Option<u64>,
    ordinal: Option<StableObjectOrdinal>,
    limits: NegotiationLimits,
) -> (result: Result<Option<u64>, NegotiationError<ME, SE>>)
    ensures
        result == ordinal_checked::<ME, SE>(generation, ordinal, limits),
{
    match ordinal {
        None => Ok(generation),
        Some(given) => {
            if given.ordinal > limits.max_stable_ordinal {
                return Err(NegotiationError::Limit(NegotiationLimitKind::StableOrdinal));
            }
            match generation {
                Some(current) => {
                    if current != given.index_generation {
                        return Err(NegotiationError::CorruptMetadata);
                    }
                },
                None => {},
            }
            Ok(Some(given.index_generation))
        },
    }
}

/// Parent edges of the first `count` rows.
pub open spec fn edges_before(rows: Seq<NegotiationCommit>, count: int) -> int
    decreases count,
{
    if count <= 0 {
        0
    } else {
        edges_before(rows, count - 1) + rows[count - 1].parents@.len()
    }
}

/// Items queued before row `at` was visited, given the number of roots.
pub open spec fn pushed_before(roots: int, rows: Seq<NegotiationCommit>, at: int) -> int {
    roots + edges_before(rows, at)
}

/// The item is a root.
pub open spec fn root_item(roots: Seq<ObjectId>, item: CommitQueueItem) -> bool {
    exists|r: int|
        0 <= r < roots.len() && item == CommitQueueItem::spec_root(#[trigger] roots[r], r as u64)
}

/// The item is a parent edge of row `k`.
pub open spec fn parent_item(
    roots: int,
    rows: Seq<NegotiationCommit>,
    item: CommitQueueItem,
    k: int,
) -> bool {
    exists|p: int|
        0 <= p < rows[k].parents@.len() && item == CommitQueueItem::spec_parent(
            #[trigger] rows[k].parents@[p],
            (pushed_before(roots, rows, k) + p) as u64,
        )
}

/// The item is a root or a parent edge of a visited row, with its insertion number.
pub open spec fn queued_item(
    roots: Seq<ObjectId>,
    rows: Seq<NegotiationCommit>,
    item: CommitQueueItem,
) -> bool {
    ||| root_item(roots, item)
    ||| exists|k: int|
        0 <= k < rows.len() && #[trigger] parent_item(roots.len() as int, rows, item, k)
}

/// Some row is about this commit.
pub open spec fn has_row(rows: Seq<NegotiationCommit>, oid: ObjectId) -> bool {
    exists|i: int| 0 <= i < rows.len() && (#[trigger] rows[i]).oid == oid
}

/// Row `i` was visited for item `i`: it answers the item, the item was queued before, and among the
/// items queued before it ranked highest.
pub open spec fn visited_row(
    roots: Seq<ObjectId>,
    excluded: Set<ObjectId>,
    rows: Seq<NegotiationCommit>,
    items: Seq<CommitQueueItem>,
    limits: NegotiationLimits,
    i: int,
) -> bool {
    &&& commit_fits(rows[i], items[i], limits)
    &&& queued_item(roots, rows.take(i), items[i])
    &&& !excluded.contains(rows[i].oid)
    &&& forall|j: int|
        i < j < items.len() && (#[trigger] items[j]).sequence < pushed_before(
            roots.len() as int,
            rows,
            i,
        ) ==> items[j].rank() <= items[i].rank()
}

/// The rows visited from the roots outside the exclusion, so far.
pub open spec fn rows_visited(
    roots: Seq<ObjectId>,
    excluded: Set<ObjectId>,
    rows: Seq<NegotiationCommit>,
    items: Seq<CommitQueueItem>,
    limits: NegotiationLimits,
) -> bool {
    &&& items.len() == rows.len()
    &&& forall|i: int, j: int|
        #![trigger rows[i], rows[j]]
        0 <= i < j < rows.len() ==> rows[i].oid != rows[j].oid
    &&& forall|i: int|
        0 <= i < rows.len() ==> #[trigger] visited_row(roots, excluded, rows, items, limits, i)
}

/// Every root and every parent edge leads to an excluded commit or to a visited row.
pub open spec fn walk_closed(
    roots: Seq<ObjectId>,
    excluded: Set<ObjectId>,
    rows: Seq<NegotiationCommit>,
) -> bool {
    &&& forall|r: int|
        0 <= r < roots.len() ==> excluded.contains(#[trigger] roots[r]) || has_row(rows, roots[r])
    &&& forall|k: int, p: int|
        #![trigger rows[k].parents@[p]]
        0 <= k < rows.len() && 0 <= p < rows[k].parents@.len() ==> excluded.contains(
            rows[k].parents@[p].oid,
        ) || has_row(rows, rows[k].parents@[p].oid)
}

/// Some parent edge has an indexed generation.
pub open spec fn rows_use_generations(rows: Seq<NegotiationCommit>) -> bool {
    exists|k: int|
        0 <= k < rows.len() && #[trigger] parents_use_generations(rows[k].parents@)
}

/// Some parent edge of one row has an indexed generation.
pub open spec fn parents_use_generations(parents: Seq<NegotiationCommitParent>) -> bool {
    exists|p: int| 0 <= p < parents.len() && (#[trigger] parents[p]).generation is Some
}

/// Look for an indexed generation among parents.
fn any_generation(parents: &Vec<NegotiationCommitParent>) -> (any: bool)
    ensures
        any == parents_use_generations(parents@),
{
    let mut at: usize = 0;
    while at < parents.len()
        invariant
            at <= parents@.len(),
            forall|p: int| 0 <= p < at ==> (#[trigger] parents@[p]).generation is None,
        decreases parents.len() - at,
    {
        if parents[at].generation.is_some() {
            assert(parents@[at as int].generation is Some);
            return true;
        }
        at = at + 1;
    }
    false
}

/// Edges count the same in a longer list of rows.
proof fn lemma_edges_extend(rows: Seq<NegotiationCommit>, row: NegotiationCommit, count: int)
    requires
        count <= rows.len(),
    ensures
        edges_before(rows.push(row), count) == edges_before(rows, count),
        edges_before(rows, count) >= 0,
    decreases count,
{
    if count > 0 {
        lemma_edges_extend(rows, row, count - 1);
        assert(rows.push(row)[count - 1] == rows[count - 1]);
    }
}

/// Edges of a prefix are the edges of the whole up to there.
proof fn lemma_edges_take(rows: Seq<NegotiationCommit>, length: int, count: int)
    requires
        count <= length <= rows.len(),
        0 <= length,
    ensures
        edges_before(rows.take(length), count) == edges_before(rows, count),
    decreases count,
{
    if count > 0 {
        lemma_edges_take(rows, length, count - 1);
        assert(rows.take(length)[count - 1] == rows[count - 1]);
    }
}

/// Edges only grow.
proof fn lemma_edges_grow(rows: Seq<NegotiationCommit>, low: int, high: int)
    requires
        low <= high,
    ensures
        edges_before(rows, low) <= edges_before(rows, high),
    decreases high,
{
    if high > 0 && low < high {
        lemma_edges_grow(rows, low, high - 1);
    }
}

/// A queued item stays queued when a row is added.
proof fn lemma_queued_extend(
    roots: Seq<ObjectId>,
    rows: Seq<NegotiationCommit>,
    row: NegotiationCommit,
    item: CommitQueueItem,
)
    requires
        queued_item(roots, rows, item),
    ensures
        queued_item(roots, rows.push(row), item),
{
    if !root_item(roots, item) {
        let n = roots.len() as int;
        let k = choose|k: int| 0 <= k < rows.len() && #[trigger] parent_item(n, rows, item, k);
        let p = choose|p: int|
            0 <= p < rows[k].parents@.len() && item == CommitQueueItem::spec_parent(
                #[trigger] rows[k].parents@[p],
                (pushed_before(n, rows, k) + p) as u64,
            );
        lemma_edges_extend(rows, row, k);
        assert(rows.push(row)[k] == rows[k]);
        assert(rows.push(row)[k].parents@[p] == rows[k].parents@[p]);
        assert(parent_item(n, rows.push(row), item, k));
    }
}

/// A visited row stays visited when a row is added whose item ranks where it must.
proof fn lemma_visited_extend(
    roots: Seq<ObjectId>,
    excluded: Set<ObjectId>,
    rows: Seq<NegotiationCommit>,
    items: Seq<CommitQueueItem>,
    limits: NegotiationLimits,
    row: NegotiationCommit,
    item: CommitQueueItem,
)
    requires
        rows_visited(roots, excluded, rows, items, limits),
        commit_fits(row, item, limits),
        queued_item(roots, rows, item),
        !excluded.contains(row.oid),
        !has_row(rows, row.oid),
        forall|i: int|
            #![trigger items[i]]
            0 <= i < items.len() && item.sequence < pushed_before(roots.len() as int, rows, i)
                ==> item.rank() <= items[i].rank(),
    ensures
        rows_visited(roots, excluded, rows.push(row), items.push(item), limits),
{
    let more = rows.push(row);
    let taken = items.push(item);
    let n = roots.len() as int;
    assert forall|i: int| 0 <= i < more.len() implies #[trigger] visited_row(
        roots,
        excluded,
        more,
        taken,
        limits,
        i,
    ) by {
        lemma_edges_extend(rows, row, i);
        if i < rows.len() {
            assert(visited_row(roots, excluded, rows, items, limits, i));
            assert(more.take(i) =~= rows.take(i));
            assert forall|j: int|
                i < j < taken.len() && (#[trigger] taken[j]).sequence < pushed_before(
                    n,
                    more,
                    i,
                ) implies taken[j].rank() <= taken[i].rank() by {
                if j < items.len() {
                    assert(taken[j] == items[j]);
                }
                assert(taken[i] == items[i]);
            }
        } else {
            assert(more.take(i) =~= rows);
        }
    }
}

/// What one walk found.
struct CommitWalk {
    kept: Vec<NegotiationCommit>,
    rows: Ghost<Seq<NegotiationCommit>>,
    items: Ghost<Seq<CommitQueueItem>>,
    used_generations: bool,
}

/// The queue leads to this commit.
spec fn awaits(queue: Seq<CommitQueueItem>, oid: ObjectId) -> bool {
    exists|item: CommitQueueItem| #[trigger] queue.contains(item) && item.oid == oid
}

/// Queue every root.
fn push_roots<ME, SE, B: NegotiationWorkBudget, C: CancellationProbe>(
    queue: &mut CommitQueue,
    roots: &Vec<ObjectId>,
    sequence: &mut u64,
    limits: NegotiationLimits,
    budget: &mut B,
    cancellation: &C,
) -> (result: Result<(), NegotiationError<ME, SE>>)
    requires
        old(queue).items().len() == 0,
        *old(sequence) == 0,
    ensures
        result matches Err(error) ==> stopped::<ME, SE, B, C>(error) || error
            == NegotiationError::<ME, SE>::Limit(NegotiationLimitKind::VisitedCommits)
            && roots@.len() >= limits.max_visited_commits,
        roots@.len() == 0 ==> result is Ok,
        result is Ok ==> {
            &&& *final(sequence) == roots@.len()
            &&& final(queue).items().len() == roots@.len()
            &&& forall|r: int| 0 <= r < roots@.len() ==> awaits(final(queue).items(), #[trigger] roots@[r])
            &&& forall|item: CommitQueueItem| #[trigger]
                final(queue).items().contains(item) ==> root_item(roots@, item)
        },
{
    let mut at: usize = 0;
    while at < roots.len()
        invariant
            at <= roots@.len(),
            *sequence == at,
            queue.items().len() == at,
            forall|r: int| 0 <= r < at ==> awaits(queue.items(), #[trigger] roots@[r]),
            forall|item: CommitQueueItem| #[trigger]
                queue.items().contains(item) ==> root_item(roots@, item),
        decreases roots.len() - at,
    {
        checkpoint(budget, cancellation)?;
        let number: u64 = match take_sequence(sequence) {
            Ok(number) => number,
            Err(kind) => {
                return Err(NegotiationError::Limit(kind));
            },
        };
        let item = CommitQueueItem::new(roots[at], number);
        let ghost before = queue.items();
        match queue.push(item, limits.max_visited_commits) {
            Ok(()) => {},
            Err(kind) => {
                return Err(NegotiationError::Limit(kind));
            },
        }
        proof {
            assert(item == CommitQueueItem::spec_root(roots@[at as int], at as u64));
            assert(queue.items().contains(item));
            lemma_awaits(before, queue.items(), item);
            assert forall|r: int| 0 <= r < at + 1 implies awaits(
                queue.items(),
                #[trigger] roots@[r],
            ) by {
                if r < at {
                    assert(awaits(before, roots@[r]));
                }
            }
        }
        at = at + 1;
    }
    Ok(())
}

/// A longer queue leads wherever a shorter one led.
proof fn lemma_awaits(before: Seq<CommitQueueItem>, after: Seq<CommitQueueItem>, item: CommitQueueItem)
    requires
        forall|x: CommitQueueItem|
            #![trigger after.contains(x)]
            after.contains(x) <==> before.contains(x) || x == item,
    ensures
        forall|oid: ObjectId| #[trigger] awaits(before, oid) ==> awaits(after, oid),
        awaits(after, item.oid),
{
    assert forall|oid: ObjectId| #[trigger] awaits(before, oid) implies awaits(after, oid) by {
        let x = choose|x: CommitQueueItem| #[trigger] before.contains(x) && x.oid == oid;
        assert(after.contains(x));
    }
    assert(after.contains(item));
}

/// Queue every parent of a row.
fn push_parents<ME, SE, B: NegotiationWorkBudget, C: CancellationProbe>(
    queue: &mut CommitQueue,
    parents: &Vec<NegotiationCommitParent>,
    sequence: &mut u64,
    limits: NegotiationLimits,
    budget: &mut B,
    cancellation: &C,
) -> (result: Result<(), NegotiationError<ME, SE>>)
    requires
        old(queue).items().len() <= *old(sequence),
    ensures
        result matches Err(error) ==> stopped::<ME, SE, B, C>(error) || error
            == NegotiationError::<ME, SE>::Limit(NegotiationLimitKind::VisitedCommits) && *old(
            sequence,
        ) + parents@.len() >= limits.max_visited_commits,
        result is Ok ==> final(queue).items().len() <= *final(sequence),
        result is Ok ==> {
            &&& *final(sequence) == *old(sequence) + parents@.len()
            &&& forall|p: int|
                0 <= p < parents@.len() ==> awaits(
                    final(queue).items(),
                    (#[trigger] parents@[p]).oid,
                )
            &&& forall|oid: ObjectId| #[trigger]
                awaits(old(queue).items(), oid) ==> awaits(final(queue).items(), oid)
            &&& forall|item: CommitQueueItem| #[trigger]
                final(queue).items().contains(item) ==> old(queue).items().contains(item) || exists|
                    p: int,
                |
                    0 <= p < parents@.len() && item == CommitQueueItem::spec_parent(
                        #[trigger] parents@[p],
                        (*old(sequence) + p) as u64,
                    )
        },
{
    let ghost start = *sequence;
    let ghost first = queue.items();
    let mut at: usize = 0;
    while at < parents.len()
        invariant
            at <= parents@.len(),
            *sequence == start + at,
            queue.items().len() <= *sequence,
            start == *old(sequence),
            first == old(queue).items(),
            forall|p: int| 0 <= p < at ==> awaits(queue.items(), (#[trigger] parents@[p]).oid),
            forall|oid: ObjectId| #[trigger] awaits(first, oid) ==> awaits(queue.items(), oid),
            forall|item: CommitQueueItem| #[trigger]
                queue.items().contains(item) ==> first.contains(item) || exists|p: int|
                    0 <= p < parents@.len() && item == CommitQueueItem::spec_parent(
                        #[trigger] parents@[p],
                        (start + p) as u64,
                    ),
        decreases parents.len() - at,
    {
        checkpoint(budget, cancellation)?;
        let number: u64 = match take_sequence(sequence) {
            Ok(number) => number,
            Err(kind) => {
                return Err(NegotiationError::Limit(kind));
            },
        };
        let item = CommitQueueItem::parent(parents[at], number);
        let ghost before = queue.items();
        match queue.push(item, limits.max_visited_commits) {
            Ok(()) => {},
            Err(kind) => {
                return Err(NegotiationError::Limit(kind));
            },
        }
        proof {
            lemma_awaits(before, queue.items(), item);
            assert(item == CommitQueueItem::spec_parent(
                parents@[at as int],
                (start + at) as u64,
            ));
            assert forall|p: int| 0 <= p < at + 1 implies awaits(
                queue.items(),
                (#[trigger] parents@[p]).oid,
            ) by {
                if p < at {
                    assert(awaits(before, parents@[p].oid));
                }
            }
        }
        at = at + 1;
    }
    Ok(())
}

/// The source gave every commit row.
pub open spec fn commits_given<M: NegotiationMetadataSource>(
    source: M,
    limits: NegotiationLimits,
    rows: Seq<NegotiationCommit>,
) -> bool {
    forall|i: int|
        0 <= i < rows.len() ==> M::answers_commit(
            source.catalogue(),
            (#[trigger] rows[i]).oid,
            limits.max_commit_parents,
            Ok(Some(rows[i])),
        )
}

/// The source gave every tree row.
pub open spec fn trees_given<M: NegotiationMetadataSource>(
    source: M,
    limits: NegotiationLimits,
    rows: Seq<NegotiationTree>,
) -> bool {
    forall|i: int|
        0 <= i < rows.len() ==> M::answers_tree(
            source.catalogue(),
            (#[trigger] rows[i]).oid,
            limits.max_tree_entries,
            Ok(Some(rows[i])),
        )
}

/// The walk was stopped from outside: the probe signalled cancellation, or a unit was refused.
pub open spec fn stopped<ME, SE, B: NegotiationWorkBudget, C: CancellationProbe>(
    error: NegotiationError<ME, SE>,
) -> bool {
    match error {
        NegotiationError::Cancelled => C::signals(true),
        NegotiationError::Limit(NegotiationLimitKind::Work) => B::answers(1, false),
        _ => false,
    }
}

/// A checkpoint let the walk go on: the probe was silent, and a unit was granted.
pub open spec fn granted<B: NegotiationWorkBudget, C: CancellationProbe>() -> bool {
    B::answers(1, true) && C::signals(false)
}

/// A membership question fails: its set does, or the ordinal is refused.
spec fn member_fault<ME, S: NegotiationSpillSet>(
    generation: Option<u64>,
    ordinal: Option<StableObjectOrdinal>,
    limits: NegotiationLimits,
    error: NegotiationError<ME, S::Error>,
) -> bool {
    ||| error matches NegotiationError::Spill(cause) && S::fails(cause)
    ||| ordinal_checked::<ME, S::Error>(generation, ordinal, limits) == Err::<
        Option<u64>,
        NegotiationError<ME, S::Error>,
    >(error)
}

/// Storing a member fails: the run is stopped, no set can be made, a set fails or contradicts
/// itself, or the entries in memory cannot be counted.
spec fn storing_failed<
    ME,
    F: NegotiationSpillFactory,
    B: NegotiationWorkBudget,
    C: CancellationProbe,
>(held: int, error: NegotiationError<ME, F::Error>) -> bool {
    ||| stopped::<ME, F::Error, B, C>(error)
    ||| error matches NegotiationError::Spill(cause) && spill_failed::<F>(cause)
    ||| error == NegotiationError::<ME, F::Error>::CorruptMetadata && F::Set::repeats()
    ||| error == NegotiationError::<ME, F::Error>::Limit(NegotiationLimitKind::Membership) && held
        > usize::MAX
}

/// A spill set failed, or could not be made.
pub open spec fn spill_failed<F: NegotiationSpillFactory>(error: F::Error) -> bool {
    ||| F::Set::fails(error)
    ||| exists|role: NegotiationSpillRole| #[trigger] F::refuses(role, error)
}

/// Whether a set of `count` members is moved to a spill set, where `held` bytes were held before
/// its first one: it outgrew its threshold or the memory.
pub open spec fn spills(count: int, held: int, limits: NegotiationLimits) -> bool {
    count > limits.spill_threshold_entries || count > 0 && held + 64 * count
        > limits.max_membership_bytes
}

/// The bytes held once a set has `count` members; one in a spill set holds none.
pub open spec fn held_after(count: int, held: int, limits: NegotiationLimits) -> int {
    if spills(count, held, limits) {
        held
    } else {
        held + 64 * count
    }
}

/// What storing a member does to where the members are kept.
spec fn stored_next<S: NegotiationSpillSet>(
    before: Membership<S>,
    after: Membership<S>,
    held: int,
    holds: int,
    limits: NegotiationLimits,
    new: bool,
) -> bool {
    if before.spill is Some || !new {
        &&& after.spill is Some == before.spill is Some
        &&& after.resident() == before.resident()
        &&& holds == held
    } else if before.resident() >= limits.spill_threshold_entries || held + 64
        > limits.max_membership_bytes {
        &&& after.spill is Some
        &&& after.resident() == 0
        &&& holds == held - 64 * before.resident()
    } else {
        &&& after.spill is None
        &&& after.resident() == before.resident() + 1
        &&& holds == held + 64
    }
}

/// Where a set of `count` members is kept, and the bytes held with it.
spec fn kept_in<S: NegotiationSpillSet>(
    membership: Membership<S>,
    held: int,
    holds: int,
    count: int,
    limits: NegotiationLimits,
) -> bool {
    &&& membership.spill is Some == spills(count, held, limits)
    &&& holds == held_after(count, held, limits)
    &&& membership.resident() == if membership.spill is Some {
        0
    } else {
        count
    }
}

/// The row speaks of the ordinal.
pub open spec fn commit_names(row: NegotiationCommit, ordinal: StableObjectOrdinal) -> bool {
    ||| row.ordinal == Some(ordinal)
    ||| row.tree_ordinal == Some(ordinal)
    ||| exists|p: int|
        0 <= p < row.parents@.len() && (#[trigger] row.parents@[p]).ordinal == Some(ordinal)
}

/// The row speaks of the ordinal.
pub open spec fn tree_names(tree: NegotiationTree, ordinal: StableObjectOrdinal) -> bool {
    ||| tree.ordinal == Some(ordinal)
    ||| exists|i: int|
        0 <= i < tree.entries@.len() && (#[trigger] tree.entries@[i]).ordinal == Some(ordinal)
}

/// A row that the source gave speaks of the ordinal.
pub open spec fn ordinal_given<M: NegotiationMetadataSource>(
    source: M,
    limits: NegotiationLimits,
    ordinal: StableObjectOrdinal,
) -> bool {
    ||| exists|row: NegotiationCommit| #[trigger]
        commit_names(row, ordinal) && M::answers_commit(
            source.catalogue(),
            row.oid,
            limits.max_commit_parents,
            Ok(Some(row)),
        )
    ||| exists|tree: NegotiationTree| #[trigger]
        tree_names(tree, ordinal) && M::answers_tree(
            source.catalogue(),
            tree.oid,
            limits.max_tree_entries,
            Ok(Some(tree)),
        )
}

/// An optional ordinal was given.
spec fn told<M: NegotiationMetadataSource>(
    source: M,
    limits: NegotiationLimits,
    ordinal: Option<StableObjectOrdinal>,
) -> bool {
    ordinal matches Some(given) ==> ordinal_given(source, limits, given)
}

/// The generation is that of an ordinal that was given.
spec fn generation_told<M: NegotiationMetadataSource>(
    source: M,
    limits: NegotiationLimits,
    generation: Option<u64>,
) -> bool {
    generation matches Some(number) ==> exists|ordinal: StableObjectOrdinal| #[trigger]
        ordinal_given(source, limits, ordinal) && ordinal.index_generation == number
}

/// The item is a root, or a parent that a given row names.
pub open spec fn item_known<M: NegotiationMetadataSource>(
    source: M,
    limits: NegotiationLimits,
    item: CommitQueueItem,
) -> bool {
    ||| item.ordinal is None && item.indexed_generation is None
    ||| exists|row: NegotiationCommit, p: int|
        0 <= p < row.parents@.len() && item == CommitQueueItem::spec_parent(
            #[trigger] row.parents@[p],
            item.sequence,
        ) && M::answers_commit(source.catalogue(), row.oid, limits.max_commit_parents, Ok(Some(row)))
}

/// The answered row does not fit an item that asked for it.
pub open spec fn row_unfit<M: NegotiationMetadataSource>(
    source: M,
    limits: NegotiationLimits,
    row: NegotiationCommit,
    item: CommitQueueItem,
) -> bool {
    &&& M::answers_commit(source.catalogue(), item.oid, limits.max_commit_parents, Ok(Some(row)))
    &&& item_known(source, limits, item)
    &&& !commit_fits(row, item, limits)
}

/// What was answered contradicts itself: a row does not fit what it was asked for, ordinals of two
/// generations were given, or a spill set knows an identity that it was not given.
pub open spec fn metadata_corrupt<M: NegotiationMetadataSource, F: NegotiationSpillFactory>(
    source: M,
    limits: NegotiationLimits,
) -> bool {
    ||| exists|row: NegotiationCommit, item: CommitQueueItem| #[trigger]
        row_unfit(source, limits, row, item)
    ||| exists|oid: ObjectId, tree: NegotiationTree|
        !tree_fits(tree, oid, limits) && #[trigger] M::answers_tree(
            source.catalogue(),
            oid,
            limits.max_tree_entries,
            Ok(Some(tree)),
        )
    ||| exists|one: StableObjectOrdinal, other: StableObjectOrdinal|
        #![trigger ordinal_given(source, limits, one), ordinal_given(source, limits, other)]
        ordinal_given(source, limits, one) && ordinal_given(source, limits, other)
            && one.index_generation != other.index_generation
    ||| F::Set::repeats()
}

/// Given rows that, with the roots, reach the limit on visited commits.
pub open spec fn visits_reach<M: NegotiationMetadataSource>(
    source: M,
    limits: NegotiationLimits,
    roots: int,
) -> bool {
    exists|rows: Seq<NegotiationCommit>| #[trigger]
        commits_given(source, limits, rows) && roots + rows.len() + edges_before(
            rows,
            rows.len() as int,
        ) >= limits.max_visited_commits
}

/// Entries of the first `count` trees.
pub open spec fn entries_before(trees: Seq<NegotiationTree>, count: int) -> int
    decreases count,
{
    if count <= 0 {
        0
    } else {
        entries_before(trees, count - 1) + trees[count - 1].entries@.len()
    }
}

/// Bytes of the first `count` commits.
pub open spec fn commit_bytes(rows: Seq<NegotiationCommit>, count: int) -> int
    decreases count,
{
    if count <= 0 {
        0
    } else {
        commit_bytes(rows, count - 1) + rows[count - 1].size_bytes
    }
}

/// Bytes of the blobs among the first `count` entries.
pub open spec fn blob_bytes(entries: Seq<NegotiationTreeEntry>, count: int) -> int
    decreases count,
{
    if count <= 0 {
        0
    } else {
        let entry = entries[count - 1];
        blob_bytes(entries, count - 1) + if entry_role(entry.mode, entry.kind) == Some(
            TreeEntryRole::Blob,
        ) {
            entry.size_bytes->0 as int
        } else {
            0
        }
    }
}

/// Bytes of the first `count` trees and their blobs.
pub open spec fn tree_bytes(trees: Seq<NegotiationTree>, count: int) -> int
    decreases count,
{
    if count <= 0 {
        0
    } else {
        tree_bytes(trees, count - 1) + trees[count - 1].size_bytes + blob_bytes(
            trees[count - 1].entries@,
            trees[count - 1].entries@.len() as int,
        )
    }
}

/// Given rows that hold as many objects as may be selected.
pub open spec fn objects_reach<M: NegotiationMetadataSource>(
    source: M,
    limits: NegotiationLimits,
) -> bool {
    exists|rows: Seq<NegotiationCommit>, trees: Seq<NegotiationTree>|
        #![trigger commits_given(source, limits, rows), trees_given(source, limits, trees)]
        commits_given(source, limits, rows) && trees_given(source, limits, trees) && rows.len()
            + trees.len() + entries_before(trees, trees.len() as int)
            >= limits.max_selected_objects
}

/// Given rows that hold more bytes than may be selected.
pub open spec fn bytes_reach<M: NegotiationMetadataSource>(
    source: M,
    limits: NegotiationLimits,
) -> bool {
    exists|rows: Seq<NegotiationCommit>, trees: Seq<NegotiationTree>|
        #![trigger commits_given(source, limits, rows), trees_given(source, limits, trees)]
        commits_given(source, limits, rows) && trees_given(source, limits, trees) && commit_bytes(
            rows,
            rows.len() as int,
        ) + tree_bytes(trees, trees.len() as int) > limits.max_selected_bytes
}

/// Commits hold no fewer bytes than fewer of them.
proof fn lemma_commit_bytes_grow(rows: Seq<NegotiationCommit>, count: int, total: int)
    requires
        0 <= count <= total,
    ensures
        commit_bytes(rows, count) <= commit_bytes(rows, total),
    decreases total,
{
    if count < total {
        lemma_commit_bytes_grow(rows, count, total - 1);
    }
}

/// A selection holds no more objects and bytes than the commits it was made of.
proof fn lemma_commits_counted(rows: Seq<NegotiationCommit>, count: int)
    requires
        0 <= count,
    ensures
        select_commits(rows, count).objects.len() <= count,
        0 <= select_commits(rows, count).bytes <= commit_bytes(rows, count),
    decreases count,
{
    if count > 0 {
        lemma_commits_counted(rows, count - 1);
    }
}

/// Selecting blobs adds no more objects and bytes than there are.
proof fn lemma_entries_counted(
    selection: Selection,
    entries: Seq<NegotiationTreeEntry>,
    count: int,
    total: int,
)
    requires
        0 <= count <= total,
    ensures
        select_entries(selection, entries, count).objects.len() <= selection.objects.len() + count,
        select_entries(selection, entries, count).bytes <= selection.bytes + blob_bytes(
            entries,
            count,
        ),
        blob_bytes(entries, count) <= blob_bytes(entries, total),
        subtrees(entries, count).len() <= count,
    decreases total, count,
{
    if count < total {
        lemma_entries_counted(selection, entries, count, total - 1);
    } else if count > 0 {
        lemma_entries_counted(selection, entries, count - 1, count - 1);
    }
}

/// What trees select and leave pending is no more than they and the commits hold.
proof fn lemma_trees_counted(
    rows: Seq<NegotiationCommit>,
    trees: Seq<NegotiationTree>,
    count: int,
)
    requires
        0 <= count <= trees.len(),
    ensures
        select_trees(rows, trees, count).objects.len() <= rows.len() + count + entries_before(
            trees,
            count,
        ),
        select_trees(rows, trees, count).bytes <= commit_bytes(rows, rows.len() as int)
            + tree_bytes(trees, count),
        pending_trees(rows, trees, count).len() <= rows.len() + entries_before(trees, count),
        0 <= entries_before(trees, count),
    decreases count,
{
    if count == 0 {
        lemma_commits_counted(rows, rows.len() as int);
        lemma_roots_counted(rows, rows.len() as int);
    } else {
        lemma_trees_counted(rows, trees, count - 1);
        let tree = trees[count - 1];
        let before = select_trees(rows, trees, count - 1);
        lemma_entries_counted(
            select(before, tree.oid, tree.size_bytes),
            tree.entries@,
            tree.entries@.len() as int,
            tree.entries@.len() as int,
        );
    }
}

/// Every commit has one root tree.
proof fn lemma_roots_counted(rows: Seq<NegotiationCommit>, count: int)
    requires
        0 <= count,
    ensures
        root_trees(rows, count).len() == count,
    decreases count,
{
    if count > 0 {
        lemma_roots_counted(rows, count - 1);
    }
}

/// Trees that agree up to `count` hold the same up to there.
proof fn lemma_trees_agree(one: Seq<NegotiationTree>, other: Seq<NegotiationTree>, count: int)
    requires
        0 <= count <= one.len(),
        count <= other.len(),
        forall|k: int| 0 <= k < count ==> #[trigger] one[k] == other[k],
    ensures
        entries_before(one, count) == entries_before(other, count),
        tree_bytes(one, count) == tree_bytes(other, count),
    decreases count,
{
    if count > 0 {
        lemma_trees_agree(one, other, count - 1);
    }
}

/// Rows that agree up to `count` have the same edges up to there.
proof fn lemma_edges_agree(one: Seq<NegotiationCommit>, other: Seq<NegotiationCommit>, count: int)
    requires
        0 <= count <= one.len(),
        count <= other.len(),
        forall|k: int| 0 <= k < count ==> #[trigger] one[k] == other[k],
    ensures
        edges_before(one, count) == edges_before(other, count),
        edges_before(one, count) >= 0,
    decreases count,
{
    if count > 0 {
        lemma_edges_agree(one, other, count - 1);
    }
}

/// Given ordinals explain a refused one.
proof fn lemma_member_fault<
    M: NegotiationMetadataSource,
    F: NegotiationSpillFactory,
    B: NegotiationWorkBudget,
    C: CancellationProbe,
>(
    source: M,
    limits: NegotiationLimits,
    roots: int,
    generation: Option<u64>,
    ordinal: Option<StableObjectOrdinal>,
    error: NegotiationError<M::Error, F::Error>,
)
    requires
        generation_told(source, limits, generation),
        told(source, limits, ordinal),
        member_fault::<M::Error, F::Set>(generation, ordinal, limits, error),
    ensures
        answers_explain::<M, F, B, C>(source, limits, roots, error),
{
}

/// An accepted ordinal leaves a generation that was told.
proof fn lemma_generation_kept<M: NegotiationMetadataSource, SE>(
    source: M,
    limits: NegotiationLimits,
    generation: Option<u64>,
    ordinal: Option<StableObjectOrdinal>,
    after: Option<u64>,
)
    requires
        generation_told(source, limits, generation),
        told(source, limits, ordinal),
        ordinal_checked::<M::Error, SE>(generation, ordinal, limits) == Ok::<
            Option<u64>,
            NegotiationError<M::Error, SE>,
        >(after),
    ensures
        generation_told(source, limits, after),
{
    if let Some(given) = ordinal {
        assert(ordinal_given(source, limits, given));
    }
}

/// A failed attempt to store a member is explained.
proof fn lemma_storing_failed<
    M: NegotiationMetadataSource,
    F: NegotiationSpillFactory,
    B: NegotiationWorkBudget,
    C: CancellationProbe,
>(
    source: M,
    limits: NegotiationLimits,
    roots: int,
    held: int,
    error: NegotiationError<M::Error, F::Error>,
)
    requires
        held <= limits.max_membership_bytes,
        storing_failed::<M::Error, F, B, C>(held, error),
    ensures
        answers_explain::<M, F, B, C>(source, limits, roots, error),
{
}

/// The source answered a read with this failure.
pub open spec fn answered_failure<M: NegotiationMetadataSource>(
    source: M,
    limits: NegotiationLimits,
    cause: M::Error,
) -> bool {
    ||| exists|oid: ObjectId| #[trigger]
        M::answers_commit(source.catalogue(), oid, limits.max_commit_parents, Err(cause))
    ||| exists|oid: ObjectId| #[trigger]
        M::answers_tree(source.catalogue(), oid, limits.max_tree_entries, Err(cause))
}

/// What was answered explains the failure: a missing row was not there, a metadata failure was the
/// source's own, a stop was signalled, a spill set failed, answers contradict each other, or given
/// rows reach the limit that is named.
pub open spec fn answers_explain<
    M: NegotiationMetadataSource,
    F: NegotiationSpillFactory,
    B: NegotiationWorkBudget,
    C: CancellationProbe,
>(
    source: M,
    limits: NegotiationLimits,
    roots: int,
    error: NegotiationError<M::Error, F::Error>,
) -> bool {
    match error {
        NegotiationError::MissingMetadata => {
            ||| exists|oid: ObjectId| #[trigger]
                M::answers_commit(source.catalogue(), oid, limits.max_commit_parents, Ok(None))
            ||| exists|oid: ObjectId| #[trigger]
                M::answers_tree(source.catalogue(), oid, limits.max_tree_entries, Ok(None))
        },
        NegotiationError::Metadata(cause) => answered_failure(source, limits, cause),
        NegotiationError::Cancelled => C::signals(true),
        NegotiationError::Spill(cause) => spill_failed::<F>(cause),
        NegotiationError::CorruptMetadata => metadata_corrupt::<M, F>(source, limits),
        NegotiationError::Limit(kind) => match kind {
            NegotiationLimitKind::Work => B::answers(1, false),
            NegotiationLimitKind::VisitedCommits => visits_reach(source, limits, roots),
            NegotiationLimitKind::Membership => roots * 64 > limits.max_membership_bytes
                || limits.max_membership_bytes > usize::MAX,
            NegotiationLimitKind::StableOrdinal => exists|ordinal: StableObjectOrdinal| #[trigger]
                ordinal_given(source, limits, ordinal) && ordinal.ordinal
                    > limits.max_stable_ordinal,
            NegotiationLimitKind::TreeEntries => exists|oid: ObjectId, tree: NegotiationTree|
                tree.entries@.len() > limits.max_tree_entries && #[trigger] M::answers_tree(
                    source.catalogue(),
                    oid,
                    limits.max_tree_entries,
                    Ok(Some(tree)),
                ),
            NegotiationLimitKind::SelectedObjects => objects_reach(source, limits),
            NegotiationLimitKind::SelectedBytes => bytes_reach(source, limits),
            _ => false,
        },
    }
}

/// A queued item is known, and so is its ordinal.
proof fn lemma_item_told<M: NegotiationMetadataSource>(
    source: M,
    limits: NegotiationLimits,
    roots: Seq<ObjectId>,
    rows: Seq<NegotiationCommit>,
    item: CommitQueueItem,
)
    requires
        queued_item(roots, rows, item),
        commits_given(source, limits, rows),
    ensures
        item_known(source, limits, item),
        told(source, limits, item.ordinal),
{
    if !root_item(roots, item) {
        let k = choose|k: int|
            0 <= k < rows.len() && #[trigger] parent_item(roots.len() as int, rows, item, k);
        let row = rows[k];
        let p = choose|p: int|
            0 <= p < row.parents@.len() && item == CommitQueueItem::spec_parent(
                #[trigger] row.parents@[p],
                (pushed_before(roots.len() as int, rows, k) + p) as u64,
            );
        assert(M::answers_commit(source.catalogue(), row.oid, limits.max_commit_parents, Ok(Some(row))));
        if let Some(given) = item.ordinal {
            assert(row.parents@[p].ordinal == Some(given));
            assert(commit_names(row, given));
        }
    }
}

/// Read one commit row.
fn read_commit<M: NegotiationMetadataSource, SE>(
    source: &mut M,
    oid: ObjectId,
    max_parents: usize,
) -> (result: Result<NegotiationCommit, NegotiationError<M::Error, SE>>)
    ensures
        match result {
            Ok(row) => M::answers_commit(old(source).catalogue(), oid, max_parents, Ok(Some(row))),
            Err(NegotiationError::MissingMetadata) => M::answers_commit(
                old(source).catalogue(),
                oid,
                max_parents,
                Ok(None),
            ),
            Err(NegotiationError::Metadata(cause)) => M::answers_commit(
                old(source).catalogue(),
                oid,
                max_parents,
                Err(cause),
            ),
            Err(_) => false,
        },
        final(source).catalogue() == old(source).catalogue(),
        final(source).commit_reads() == old(source).commit_reads().push(oid),
        final(source).tree_reads() == old(source).tree_reads(),
{
    match source.read_commit(&oid, max_parents) {
        Ok(Some(commit)) => Ok(commit),
        Ok(None) => Err(NegotiationError::MissingMetadata),
        Err(error) => Err(NegotiationError::Metadata(error)),
    }
}

/// What holds between two visits of a walk.
spec fn walking(
    roots: Seq<ObjectId>,
    excluded: Set<ObjectId>,
    visited: Set<ObjectId>,
    queue: Seq<CommitQueueItem>,
    sequence: u64,
    rows: Seq<NegotiationCommit>,
    items: Seq<CommitQueueItem>,
    limits: NegotiationLimits,
) -> bool {
    let n = roots.len() as int;
    &&& rows_visited(roots, excluded, rows, items, limits)
    &&& forall|oid: ObjectId| visited.contains(oid) <==> has_row(rows, oid)
    &&& sequence == pushed_before(n, rows, rows.len() as int)
    &&& forall|item: CommitQueueItem| #[trigger]
        queue.contains(item) ==> queued_item(roots, rows, item)
    &&& forall|item: CommitQueueItem, i: int|
        #![trigger queue.contains(item), items[i]]
        queue.contains(item) && 0 <= i < items.len() && item.sequence < pushed_before(n, rows, i)
            ==> item.rank() <= items[i].rank()
    &&& forall|r: int|
        0 <= r < roots.len() ==> excluded.contains(#[trigger] roots[r]) || has_row(rows, roots[r])
            || awaits(queue, roots[r])
    &&& forall|k: int, p: int|
        #![trigger rows[k].parents@[p]]
        0 <= k < rows.len() && 0 <= p < rows[k].parents@.len() ==> excluded.contains(
            rows[k].parents@[p].oid,
        ) || has_row(rows, rows[k].parents@[p].oid) || awaits(queue, rows[k].parents@[p].oid)
}

/// Dropping an item whose commit needs no visit keeps the walk.
proof fn lemma_walk_skip(
    roots: Seq<ObjectId>,
    excluded: Set<ObjectId>,
    visited: Set<ObjectId>,
    before: Seq<CommitQueueItem>,
    after: Seq<CommitQueueItem>,
    item: CommitQueueItem,
    sequence: u64,
    rows: Seq<NegotiationCommit>,
    items: Seq<CommitQueueItem>,
    limits: NegotiationLimits,
)
    requires
        walking(roots, excluded, visited, before, sequence, rows, items, limits),
        excluded.contains(item.oid) || visited.contains(item.oid),
        forall|x: CommitQueueItem| #[trigger] after.contains(x) ==> before.contains(x),
        forall|x: CommitQueueItem| #[trigger]
            before.contains(x) ==> x == item || after.contains(x),
    ensures
        walking(roots, excluded, visited, after, sequence, rows, items, limits),
{
    assert forall|oid: ObjectId| #[trigger] awaits(before, oid) implies awaits(after, oid)
        || excluded.contains(oid) || has_row(rows, oid) by {
        let x = choose|x: CommitQueueItem| #[trigger] before.contains(x) && x.oid == oid;
        if x != item {
            assert(after.contains(x));
        }
    }
}

/// Visiting the commit of the highest item keeps the walk.
proof fn lemma_walk_visit(
    roots: Seq<ObjectId>,
    excluded: Set<ObjectId>,
    visited: Set<ObjectId>,
    before: Seq<CommitQueueItem>,
    popped: Seq<CommitQueueItem>,
    after: Seq<CommitQueueItem>,
    item: CommitQueueItem,
    row: NegotiationCommit,
    sequence: u64,
    next: u64,
    rows: Seq<NegotiationCommit>,
    items: Seq<CommitQueueItem>,
    limits: NegotiationLimits,
)
    requires
        walking(roots, excluded, visited, before, sequence, rows, items, limits),
        !excluded.contains(item.oid),
        !visited.contains(item.oid),
        commit_fits(row, item, limits),
        before.contains(item),
        forall|x: CommitQueueItem| #[trigger] popped.contains(x) ==> before.contains(x),
        forall|x: CommitQueueItem| #[trigger]
            before.contains(x) ==> x.rank() <= item.rank() && (x == item || popped.contains(x)),
        next == sequence + row.parents@.len(),
        forall|p: int|
            0 <= p < row.parents@.len() ==> awaits(after, (#[trigger] row.parents@[p]).oid),
        forall|oid: ObjectId| #[trigger] awaits(popped, oid) ==> awaits(after, oid),
        forall|x: CommitQueueItem| #[trigger]
            after.contains(x) ==> popped.contains(x) || exists|p: int|
                0 <= p < row.parents@.len() && x == CommitQueueItem::spec_parent(
                    #[trigger] row.parents@[p],
                    (sequence + p) as u64,
                ),
    ensures
        walking(
            roots,
            excluded,
            visited.insert(row.oid),
            after,
            next,
            rows.push(row),
            items.push(item),
            limits,
        ),
{
    let n = roots.len() as int;
    let more = rows.push(row);
    let taken = items.push(item);
    assert(!has_row(rows, row.oid));
    lemma_visited_extend(roots, excluded, rows, items, limits, row, item);
    lemma_edges_extend(rows, row, rows.len() as int);
    assert(more[rows.len() as int] == row);
    assert forall|oid: ObjectId| visited.insert(row.oid).contains(oid) <==> has_row(more, oid) by {
        if has_row(rows, oid) {
            let i = choose|i: int| 0 <= i < rows.len() && (#[trigger] rows[i]).oid == oid;
            assert(more[i].oid == oid);
        }
        if has_row(more, oid) && oid != row.oid {
            let i = choose|i: int| 0 <= i < more.len() && (#[trigger] more[i]).oid == oid;
            assert(rows[i].oid == oid);
        }
    }
    assert forall|x: CommitQueueItem| #[trigger] after.contains(x) implies queued_item(
        roots,
        more,
        x,
    ) by {
        if popped.contains(x) {
            lemma_queued_extend(roots, rows, row, x);
        } else {
            let p = choose|p: int|
                0 <= p < row.parents@.len() && x == CommitQueueItem::spec_parent(
                    #[trigger] row.parents@[p],
                    (sequence + p) as u64,
                );
            let k = rows.len() as int;
            assert(more[k].parents@[p] == row.parents@[p]);
            assert(parent_item(n, more, x, k));
        }
    }
    assert forall|x: CommitQueueItem, i: int|
        #![trigger after.contains(x), taken[i]]
        after.contains(x) && 0 <= i < taken.len() && x.sequence < pushed_before(
            n,
            more,
            i,
        ) implies x.rank() <= taken[i].rank() by {
        lemma_edges_extend(rows, row, i);
        if popped.contains(x) {
            assert(before.contains(x));
            if i < items.len() {
                assert(taken[i] == items[i]);
            }
        } else {
            lemma_edges_grow(rows, i, rows.len() as int);
        }
    }
    assert forall|oid: ObjectId| #[trigger] awaits(before, oid) implies awaits(after, oid) || oid
        == row.oid by {
        let x = choose|x: CommitQueueItem| #[trigger] before.contains(x) && x.oid == oid;
        if x != item {
            assert(popped.contains(x));
            assert(awaits(popped, oid));
        }
    }
    assert forall|oid: ObjectId| has_row(rows, oid) implies #[trigger] has_row(more, oid) by {
        let i = choose|i: int| 0 <= i < rows.len() && (#[trigger] rows[i]).oid == oid;
        assert(more[i].oid == oid);
    }
    assert(has_row(more, row.oid));
    assert forall|k: int, p: int|
        #![trigger more[k].parents@[p]]
        0 <= k < more.len() && 0 <= p < more[k].parents@.len() implies excluded.contains(
        more[k].parents@[p].oid,
    ) || has_row(more, more[k].parents@[p].oid) || awaits(after, more[k].parents@[p].oid) by {
        if k < rows.len() {
            assert(more[k] == rows[k]);
            assert(rows[k].parents@[p] == more[k].parents@[p]);
        } else {
            assert(row.parents@[p] == more[k].parents@[p]);
        }
    }
}

/// What was read since is no commit of the given set, and no commit twice.
pub open spec fn read_once(
    before: Seq<ObjectId>,
    after: Seq<ObjectId>,
    outside: Set<ObjectId>,
) -> bool {
    &&& before.is_prefix_of(after)
    &&& forall|i: int, j: int|
        #![trigger after[i], after[j]]
        before.len() <= i < j < after.len() ==> after[i] != after[j]
    &&& forall|i: int|
        before.len() <= i < after.len() ==> !outside.contains(#[trigger] after[i])
}

/// Visited rows are read once each, and so is one that is not visited yet.
proof fn lemma_rows_read_once(
    before: Seq<ObjectId>,
    roots: Seq<ObjectId>,
    outside: Set<ObjectId>,
    rows: Seq<NegotiationCommit>,
    items: Seq<CommitQueueItem>,
    limits: NegotiationLimits,
)
    requires
        rows_visited(roots, outside, rows, items, limits),
    ensures
        read_once(before, before + row_oids(rows), outside),
        forall|oid: ObjectId|
            !outside.contains(oid) && !#[trigger] has_row(rows, oid) ==> read_once(
                before,
                (before + row_oids(rows)).push(oid),
                outside,
            ),
{
    let after = before + row_oids(rows);
    assert forall|i: int| before.len() <= i < after.len() implies !outside.contains(
        #[trigger] after[i],
    ) by {
        assert(visited_row(roots, outside, rows, items, limits, i - before.len()));
    }
    assert forall|i: int, j: int|
        #![trigger after[i], after[j]]
        before.len() <= i < j < after.len() implies after[i] != after[j] by {
        assert(rows[i - before.len()].oid != rows[j - before.len()].oid);
    }
    assert forall|oid: ObjectId|
        !outside.contains(oid) && !#[trigger] has_row(rows, oid) implies read_once(
        before,
        after.push(oid),
        outside,
    ) by {
        assert forall|i: int| before.len() <= i < after.len() implies after[i] != oid by {
            assert(rows[i - before.len()].oid == after[i]);
        }
    }
}

/// Reading once outside what was read before is reading once in all.
proof fn lemma_read_once_joins(
    before: Seq<ObjectId>,
    middle: Seq<ObjectId>,
    after: Seq<ObjectId>,
    rows: Seq<NegotiationCommit>,
)
    requires
        read_once(before, middle, Set::empty()),
        middle == before + row_oids(rows),
        read_once(middle, after, row_set(rows)),
    ensures
        read_once(before, after, Set::empty()),
{
    assert forall|i: int, j: int|
        #![trigger after[i], after[j]]
        before.len() <= i < j < after.len() implies after[i] != after[j] by {
        assert(forall|k: int| 0 <= k < middle.len() ==> #[trigger] after[k] == middle[k]);
        if i < middle.len() && j >= middle.len() {
            assert(rows[i - before.len()].oid == after[i]);
            assert(row_set(rows).contains(after[i]));
        }
    }
}

/// Walk from the roots outside the exclusion, highest rank first, and keep the rows on request.
fn walk_commits<M, F, B, C>(
    source: &mut M,
    roots: &Vec<ObjectId>,
    excluded: &mut Membership<F::Set>,
    visited: &mut Membership<F::Set>,
    limits: NegotiationLimits,
    factory: &mut F,
    memory: &mut MembershipMemory,
    reads: &mut u64,
    keep: bool,
    budget: &mut B,
    cancellation: &C,
    Ghost(origin): Ghost<M>,
    Ghost(prior): Ghost<Seq<NegotiationCommit>>,
    Ghost(total): Ghost<int>,
) -> (result: Result<CommitWalk, NegotiationError<M::Error, F::Error>>) where
    M: NegotiationMetadataSource,
    F: NegotiationSpillFactory,
    B: NegotiationWorkBudget,
    C: CancellationProbe,

    requires
        old(source).catalogue() == origin.catalogue(),
        old(visited).members() == Set::<ObjectId>::empty(),
        *old(reads) <= limits.max_visited_commits,
        *old(reads) == prior.len(),
        commits_given(origin, limits, prior),
        roots@.len() <= total,
        generation_told(origin, limits, old(excluded).ordinal_generation),
        old(visited).ordinal_generation is None,
        old(visited).spill is None,
        old(visited).resident() == 0,
        old(excluded).purposed(),
        old(memory).estimated_bytes <= limits.max_membership_bytes,
    ensures
        final(excluded).role == old(excluded).role,
        final(excluded).purposed(),
        if result is Ok {
            set_kept(
                *old(visited),
                *final(visited),
                old(factory).created(),
                final(factory).created(),
            )
        } else {
            set_left(
                *old(visited),
                *final(visited),
                old(factory).created(),
                final(factory).created(),
            )
        },
        result matches Err(error) ==> answers_explain::<M, F, B, C>(
            origin,
            limits,
            total,
            error,
        ),
        final(excluded).spill is Some == old(excluded).spill is Some,
        result is Ok ==> generation_told(origin, limits, final(visited).ordinal_generation),
        result is Ok ==> kept_in(
            *final(visited),
            old(memory).estimated_bytes as int,
            final(memory).estimated_bytes as int,
            result->Ok_0.rows@.len() as int,
            limits,
        ),
        result is Ok ==> final(memory).estimated_bytes <= limits.max_membership_bytes,
        final(excluded).members() == old(excluded).members(),
        roots@.len() == 0 ==> result is Ok && *final(visited) == *old(visited) && *final(excluded)
            == *old(excluded),
        final(source).catalogue() == old(source).catalogue(),
        final(source).tree_reads() == old(source).tree_reads(),
        read_once(
            old(source).commit_reads(),
            final(source).commit_reads(),
            old(excluded).members(),
        ),
        *old(reads) + final(source).commit_reads().len() - old(source).commit_reads().len()
            <= limits.max_visited_commits,
        result is Ok ==> final(source).commit_reads() == old(source).commit_reads() + row_oids(
            result->Ok_0.rows@,
        ),
        result is Ok ==> {
            let walk = result->Ok_0;
            &&& rows_visited(
                roots@,
                old(excluded).members(),
                walk.rows@,
                walk.items@,
                limits,
            )
            &&& walk_closed(roots@, old(excluded).members(), walk.rows@)
            &&& forall|oid: ObjectId|
                final(visited).members().contains(oid) <==> has_row(walk.rows@, oid)
            &&& *final(reads) == *old(reads) + walk.rows@.len()
            &&& *final(reads) <= limits.max_visited_commits
            &&& walk.used_generations == rows_use_generations(walk.rows@)
            &&& keep ==> walk.kept@ == walk.rows@
            &&& commits_given(origin, limits, walk.rows@)
        },
{
    let ghost outside = excluded.members();
    let mut queue = CommitQueue::new();
    let mut sequence: u64 = 0;
    let mut used_generations: bool = false;
    let mut kept: Vec<NegotiationCommit> = Vec::new();
    let ghost mut rows: Seq<NegotiationCommit> = Seq::empty();
    let ghost mut items: Seq<CommitQueueItem> = Seq::empty();
    let ghost earlier = source.commit_reads();
    proof {
        lemma_rows_read_once(earlier, roots@, outside, rows, items, limits);
        assert(earlier + row_oids(rows) =~= earlier);
    }
    match push_roots::<M::Error, F::Error, B, C>(
        &mut queue,
        roots,
        &mut sequence,
        limits,
        budget,
        cancellation,
    ) {
        Ok(()) => {},
        Err(error) => {
            proof {
                assert(commits_given(origin, limits, rows));
            }
            return Err(error);
        },
    }
    let ghost held = memory.estimated_bytes as int;
    proof {
        assert forall|item: CommitQueueItem| #[trigger]
            queue.items().contains(item) implies queued_item(roots@, rows, item) by {}
        assert(walking(
            roots@,
            outside,
            visited.members(),
            queue.items(),
            sequence,
            rows,
            items,
            limits,
        ));
    }
    loop
        invariant
            roots@.len() == 0 ==> queue.items().len() == 0 && *visited == *old(visited)
                && *excluded == *old(excluded),
            walking(
                roots@,
                outside,
                visited.members(),
                queue.items(),
                sequence,
                rows,
                items,
                limits,
            ),
            outside == excluded.members(),
            outside == old(excluded).members(),
            earlier == old(source).commit_reads(),
            source.commit_reads() == earlier + row_oids(rows),
            source.tree_reads() == old(source).tree_reads(),
            source.catalogue() == origin.catalogue(),
            old(source).catalogue() == origin.catalogue(),
            *reads == *old(reads) + rows.len(),
            *reads <= limits.max_visited_commits,
            used_generations == rows_use_generations(rows),
            keep ==> kept@ == rows,
            commits_given(origin, limits, rows),
            *old(reads) == prior.len(),
            commits_given(origin, limits, prior),
            roots@.len() <= total,
            queue.items().len() <= sequence,
            generation_told(origin, limits, excluded.ordinal_generation),
            generation_told(origin, limits, visited.ordinal_generation),
            excluded.spill is Some == old(excluded).spill is Some,
            excluded.role == old(excluded).role,
            excluded.purposed(),
            set_kept(*old(visited), *visited, old(factory).created(), factory.created()),
            held == old(memory).estimated_bytes,
            kept_in(*visited, held, memory.estimated_bytes as int, rows.len() as int, limits),
            memory.estimated_bytes <= limits.max_membership_bytes,
        decreases limits.max_visited_commits - *reads, queue.items().len(),
    {
        proof {
            lemma_rows_read_once(earlier, roots@, outside, rows, items, limits);
        }
        let ghost before = queue.items();
        let item = match queue.pop() {
            Some(item) => item,
            None => {
                proof {
                    assert forall|oid: ObjectId| !#[trigger] awaits(before, oid) by {
                        if awaits(before, oid) {
                            let x = choose|x: CommitQueueItem| #[trigger]
                                before.contains(x) && x.oid == oid;
                            assert(before.contains(x));
                        }
                    }
                    assert(walk_closed(roots@, outside, rows));
                }
                return Ok(
                    CommitWalk { kept, rows: Ghost(rows), items: Ghost(items), used_generations },
                );
            },
        };
        let ghost popped = queue.items();
        proof {
            lemma_item_told(origin, limits, roots@, rows, item);
        }
        checkpoint(budget, cancellation)?;
        let ghost first = excluded.ordinal_generation;
        let outside_known: bool = match excluded.contains::<M::Error>(
            &item.oid,
            item.ordinal,
            limits,
        ) {
            Ok(known) => known,
            Err(error) => {
                proof {
                    lemma_member_fault::<M, F, B, C>(
                        origin,
                        limits,
                        total,
                        first,
                        item.ordinal,
                        error,
                    );
                }
                return Err(error);
            },
        };
        let ghost second = visited.ordinal_generation;
        let known: bool = if outside_known {
            true
        } else {
            match visited.contains::<M::Error>(&item.oid, item.ordinal, limits) {
                Ok(known) => known,
                Err(error) => {
                    proof {
                        lemma_member_fault::<M, F, B, C>(
                            origin,
                            limits,
                            total,
                            second,
                            item.ordinal,
                            error,
                        );
                    }
                    return Err(error);
                },
            }
        };
        proof {
            lemma_generation_kept::<M, F::Error>(
                origin,
                limits,
                first,
                item.ordinal,
                excluded.ordinal_generation,
            );
            if !outside_known {
                lemma_generation_kept::<M, F::Error>(
                    origin,
                    limits,
                    second,
                    item.ordinal,
                    visited.ordinal_generation,
                );
            }
        }
        if known {
            proof {
                lemma_walk_skip(
                    roots@,
                    outside,
                    visited.members(),
                    before,
                    popped,
                    item,
                    sequence,
                    rows,
                    items,
                    limits,
                );
            }
            continue;
        }
        match ensure_commit_read_available::<M::Error, F::Error>(*reads, limits) {
            Ok(()) => {},
            Err(error) => {
                proof {
                    let all = prior + rows;
                    lemma_edges_agree(all, all, all.len() as int);
                    assert(commits_given(origin, limits, all));
                }
                return Err(error);
            },
        }
        assert(!has_row(rows, item.oid));
        let commit = read_commit(source, item.oid, limits.max_commit_parents)?;
        *reads = *reads + 1;
        match validate_commit::<M::Error, F::Error>(&commit, item, limits) {
            Ok(()) => {},
            Err(error) => {
                assert(row_unfit(origin, limits, commit, item));
                return Err(error);
            },
        }
        proof {
            if let Some(given) = commit.ordinal {
                assert(commit_names(commit, given));
            }
        }
        let ghost third = excluded.ordinal_generation;
        match excluded.validate_ordinal::<M::Error, F::Error>(commit.ordinal, limits) {
            Ok(()) => {
                proof {
                    lemma_generation_kept::<M, F::Error>(
                        origin,
                        limits,
                        third,
                        commit.ordinal,
                        excluded.ordinal_generation,
                    );
                }
            },
            Err(error) => {
                proof {
                    lemma_member_fault::<M, F, B, C>(
                        origin,
                        limits,
                        total,
                        third,
                        commit.ordinal,
                        error,
                    );
                }
                return Err(error);
            },
        }
        let ghost known = visited.members();
        let ghost fourth = visited.ordinal_generation;
        let ghost holds = memory.estimated_bytes as int;
        match visited.insert::<M::Error, F, B, C>(
            commit.oid,
            commit.ordinal,
            limits,
            factory,
            memory,
            budget,
            cancellation,
        ) {
            Ok(_) => {
                proof {
                    lemma_generation_kept::<M, F::Error>(
                        origin,
                        limits,
                        fourth,
                        commit.ordinal,
                        visited.ordinal_generation,
                    );
                }
            },
            Err(error) => {
                proof {
                    if member_fault::<M::Error, F::Set>(fourth, commit.ordinal, limits, error) {
                        lemma_member_fault::<M, F, B, C>(
                            origin,
                            limits,
                            total,
                            fourth,
                            commit.ordinal,
                            error,
                        );
                    } else {
                        lemma_storing_failed::<M, F, B, C>(origin, limits, total, holds, error);
                    }
                }
                return Err(error);
            },
        }
        if any_generation(&commit.parents) {
            used_generations = true;
        }
        let ghost number = sequence;
        match push_parents::<M::Error, F::Error, B, C>(
            &mut queue,
            &commit.parents,
            &mut sequence,
            limits,
            budget,
            cancellation,
        ) {
            Ok(()) => {},
            Err(error) => {
                proof {
                    let more = rows.push(commit);
                    lemma_edges_agree(rows, more, rows.len() as int);
                    assert(more.last() == commit);
                    assert(commits_given(origin, limits, more));
                }
                return Err(error);
            },
        }
        proof {
            lemma_walk_visit(
                roots@,
                outside,
                known,
                before,
                popped,
                queue.items(),
                item,
                commit,
                number,
                sequence,
                rows,
                items,
                limits,
            );
            lemma_generations_extend(rows, commit);
            assert(row_oids(rows.push(commit)) =~= row_oids(rows).push(item.oid));
            assert(earlier + row_oids(rows).push(item.oid) =~= (earlier + row_oids(rows)).push(
                item.oid,
            ));
            rows = rows.push(commit);
            items = items.push(item);
        }
        if keep {
            kept.push(commit);
        }
    }
}

/// Whether generations are used is decided row by row.
proof fn lemma_generations_extend(rows: Seq<NegotiationCommit>, row: NegotiationCommit)
    ensures
        rows_use_generations(rows.push(row)) == (rows_use_generations(rows)
            || parents_use_generations(row.parents@)),
{
    let more = rows.push(row);
    assert(more[rows.len() as int] == row);
    if rows_use_generations(rows) {
        let k = choose|k: int|
            0 <= k < rows.len() && #[trigger] parents_use_generations(rows[k].parents@);
        assert(more[k] == rows[k]);
        assert(parents_use_generations(more[k].parents@));
    }
    if parents_use_generations(row.parents@) {
        assert(parents_use_generations(more[rows.len() as int].parents@));
    }
    if rows_use_generations(more) {
        let k = choose|k: int|
            0 <= k < more.len() && #[trigger] parents_use_generations(more[k].parents@);
        if k < rows.len() {
            assert(more[k] == rows[k]);
            assert(parents_use_generations(rows[k].parents@));
        }
    }
}

/// Role of a tree entry in the object closure.
#[derive(Clone, Copy, Debug, PartialEq, Eq, Structural)]
pub enum TreeEntryRole {
    /// Commit of another repository, outside the closure.
    Gitlink,
    /// Subtree, expanded later.
    Tree,
    /// Blob, selected at once.
    Blob,
}

/// The role that mode and kind give an entry.
pub open spec fn entry_role(mode: u32, kind: ObjectKind) -> Option<TreeEntryRole> {
    if mode == 0o160000 && kind == ObjectKind::Commit {
        Some(TreeEntryRole::Gitlink)
    } else if mode == 0o040000 && kind == ObjectKind::Tree {
        Some(TreeEntryRole::Tree)
    } else if (mode == 0o100644 || mode == 0o100755 || mode == 0o120000) && kind
        == ObjectKind::Blob {
        Some(TreeEntryRole::Blob)
    } else {
        None
    }
}

/// An entry may stand in a tree of this algorithm.
pub open spec fn entry_fits(entry: NegotiationTreeEntry, algo: HashAlgo) -> bool {
    &&& !entry.oid.spec_is_zero()
    &&& entry.oid.spec_algo() == algo
    &&& entry_role(entry.mode, entry.kind) is Some
    &&& entry_role(entry.mode, entry.kind) == Some(TreeEntryRole::Blob) ==> entry.size_bytes
        is Some
}

/// Check one tree entry and return its role and, for a blob, its size.
pub fn classify_entry<ME, SE>(entry: &NegotiationTreeEntry, algo: HashAlgo) -> (result: Result<
    (TreeEntryRole, u64),
    NegotiationError<ME, SE>,
>)
    ensures
        match result {
            Ok((role, size)) => entry_fits(*entry, algo) && Some(role) == entry_role(
                entry.mode,
                entry.kind,
            ) && (role == TreeEntryRole::Blob ==> Some(size) == entry.size_bytes),
            Err(error) => error == NegotiationError::<ME, SE>::CorruptMetadata && !entry_fits(
                *entry,
                algo,
            ),
        },
{
    if entry.oid.is_zero() || entry.oid.algo() != algo {
        return Err(NegotiationError::CorruptMetadata);
    }
    if entry.mode == 0o160000 && entry.kind == ObjectKind::Commit {
        return Ok((TreeEntryRole::Gitlink, 0));
    }
    if entry.mode == 0o040000 && entry.kind == ObjectKind::Tree {
        return Ok((TreeEntryRole::Tree, 0));
    }
    if (entry.mode == 0o100644 || entry.mode == 0o100755 || entry.mode == 0o120000) && entry.kind
        == ObjectKind::Blob {
        return match entry.size_bytes {
            Some(size) => Ok((TreeEntryRole::Blob, size)),
            None => Err(NegotiationError::CorruptMetadata),
        };
    }
    Err(NegotiationError::CorruptMetadata)
}

/// Selected objects and their payload bytes.
pub struct Selection {
    /// Objects in order of selection.
    pub objects: Seq<ObjectId>,
    /// Payload bytes.
    pub bytes: int,
}

/// Select an object once.
pub open spec fn select(selection: Selection, oid: ObjectId, size: u64) -> Selection {
    if selection.objects.contains(oid) {
        selection
    } else {
        Selection { objects: selection.objects.push(oid), bytes: selection.bytes + size }
    }
}

/// The selection after the first `count` commits.
pub open spec fn select_commits(rows: Seq<NegotiationCommit>, count: int) -> Selection
    decreases count,
{
    if count <= 0 {
        Selection { objects: Seq::empty(), bytes: 0 }
    } else {
        select(select_commits(rows, count - 1), rows[count - 1].oid, rows[count - 1].size_bytes)
    }
}

/// The selection after the blobs among the first `count` entries of a tree.
pub open spec fn select_entries(
    selection: Selection,
    entries: Seq<NegotiationTreeEntry>,
    count: int,
) -> Selection
    decreases count,
{
    if count <= 0 {
        selection
    } else {
        let before = select_entries(selection, entries, count - 1);
        let entry = entries[count - 1];
        if entry_role(entry.mode, entry.kind) == Some(TreeEntryRole::Blob) {
            select(before, entry.oid, entry.size_bytes->0)
        } else {
            before
        }
    }
}

/// The selection after all commits and the first `count` trees.
pub open spec fn select_trees(
    rows: Seq<NegotiationCommit>,
    trees: Seq<NegotiationTree>,
    count: int,
) -> Selection
    decreases count,
{
    if count <= 0 {
        select_commits(rows, rows.len() as int)
    } else {
        let before = select_trees(rows, trees, count - 1);
        let tree = trees[count - 1];
        select_entries(
            select(before, tree.oid, tree.size_bytes),
            tree.entries@,
            tree.entries@.len() as int,
        )
    }
}

/// The subtrees among the first `count` entries of a tree.
pub open spec fn subtrees(entries: Seq<NegotiationTreeEntry>, count: int) -> Seq<ObjectId>
    decreases count,
{
    if count <= 0 {
        Seq::empty()
    } else {
        let before = subtrees(entries, count - 1);
        let entry = entries[count - 1];
        if entry_role(entry.mode, entry.kind) == Some(TreeEntryRole::Tree) {
            before.push(entry.oid)
        } else {
            before
        }
    }
}

/// The root trees of the first `count` commits.
pub open spec fn root_trees(rows: Seq<NegotiationCommit>, count: int) -> Seq<ObjectId>
    decreases count,
{
    if count <= 0 {
        Seq::empty()
    } else {
        root_trees(rows, count - 1).push(rows[count - 1].tree)
    }
}

/// The trees to expand, in order, once the first `count` tree rows are expanded.
pub open spec fn pending_trees(
    rows: Seq<NegotiationCommit>,
    trees: Seq<NegotiationTree>,
    count: int,
) -> Seq<ObjectId>
    decreases count,
{
    if count <= 0 {
        root_trees(rows, rows.len() as int)
    } else {
        pending_trees(rows, trees, count - 1) + subtrees(
            trees[count - 1].entries@,
            trees[count - 1].entries@.len() as int,
        )
    }
}

/// A tree row answers the request and all its entries may stand there.
pub open spec fn tree_fits(tree: NegotiationTree, oid: ObjectId, limits: NegotiationLimits) -> bool {
    &&& tree.oid == oid
    &&& tree.entries@.len() <= limits.max_tree_entries
    &&& forall|i: int|
        0 <= i < tree.entries@.len() ==> entry_fits(
            #[trigger] tree.entries@[i],
            oid.spec_algo(),
        )
}

/// Tree row `k` was read for the pending tree at its position.
pub open spec fn tree_read(
    rows: Seq<NegotiationCommit>,
    trees: Seq<NegotiationTree>,
    positions: Seq<int>,
    limits: NegotiationLimits,
    k: int,
) -> bool {
    let pending = pending_trees(rows, trees, k);
    &&& 0 <= positions[k] < pending.len()
    &&& tree_fits(trees[k], pending[positions[k]], limits)
    &&& !select_trees(rows, trees, k).objects.contains(trees[k].oid)
}

/// The trees were expanded in the order in which they became pending.
pub open spec fn trees_read(
    rows: Seq<NegotiationCommit>,
    trees: Seq<NegotiationTree>,
    positions: Seq<int>,
    limits: NegotiationLimits,
) -> bool {
    &&& positions.len() == trees.len()
    &&& forall|i: int, j: int|
        #![trigger positions[i], positions[j]]
        0 <= i < j < positions.len() ==> positions[i] < positions[j]
    &&& forall|k: int|
        0 <= k < trees.len() ==> #[trigger] tree_read(rows, trees, positions, limits, k)
}

/// The members are the selected objects.
spec fn tracks(members: Set<ObjectId>, objects: Seq<ObjectId>) -> bool {
    forall|oid: ObjectId| #[trigger] members.contains(oid) <==> objects.contains(oid)
}

/// Why an object is not selected, where `count` are and it would bring them to `bytes`.
spec fn selecting_failed<
    M: NegotiationMetadataSource,
    F: NegotiationSpillFactory,
    B: NegotiationWorkBudget,
    C: CancellationProbe,
>(
    source: M,
    limits: NegotiationLimits,
    roots: int,
    count: int,
    bytes: int,
    error: NegotiationError<M::Error, F::Error>,
) -> bool {
    match error {
        NegotiationError::Limit(NegotiationLimitKind::SelectedObjects) => count
            >= limits.max_selected_objects,
        NegotiationError::Limit(NegotiationLimitKind::SelectedBytes) => bytes
            > limits.max_selected_bytes,
        _ => answers_explain::<M, F, B, C>(source, limits, roots, error),
    }
}

/// The ordinals of all queued trees were given.
spec fn queue_told<M: NegotiationMetadataSource>(
    source: M,
    limits: NegotiationLimits,
    queue: Seq<(ObjectId, Option<StableObjectOrdinal>)>,
) -> bool {
    forall|i: int| 0 <= i < queue.len() ==> told(source, limits, (#[trigger] queue[i]).1)
}

/// Select an object once, within the limits.
fn select_object<M, F, B, C>(
    oid: ObjectId,
    ordinal: Option<StableObjectOrdinal>,
    size: u64,
    membership: &mut Membership<F::Set>,
    objects: &mut Vec<ObjectId>,
    selected_bytes: &mut u64,
    limits: NegotiationLimits,
    factory: &mut F,
    memory: &mut MembershipMemory,
    budget: &mut B,
    cancellation: &C,
    Ghost(source): Ghost<M>,
    Ghost(held): Ghost<int>,
    Ghost(total): Ghost<int>,
) -> (result: Result<(), NegotiationError<M::Error, F::Error>>) where
    M: NegotiationMetadataSource,
    F: NegotiationSpillFactory,
    B: NegotiationWorkBudget,
    C: CancellationProbe,

    requires
        old(membership).purposed(),
        tracks(old(membership).members(), old(objects)@),
        told(source, limits, ordinal),
        generation_told(source, limits, old(membership).ordinal_generation),
        0 <= held,
        kept_in(
            *old(membership),
            held,
            old(memory).estimated_bytes as int,
            old(objects)@.len() as int,
            limits,
        ),
        old(memory).estimated_bytes <= limits.max_membership_bytes,
    ensures
        if result is Ok {
            set_kept(
                *old(membership),
                *final(membership),
                old(factory).created(),
                final(factory).created(),
            )
        } else {
            set_left(
                *old(membership),
                *final(membership),
                old(factory).created(),
                final(factory).created(),
            )
        },
        result matches Err(error) ==> selecting_failed::<M, F, B, C>(
            source,
            limits,
            total,
            old(objects)@.len() as int,
            *old(selected_bytes) + size,
            error,
        ),
        result is Ok ==> generation_told(source, limits, final(membership).ordinal_generation),
        result is Ok ==> kept_in(
            *final(membership),
            held,
            final(memory).estimated_bytes as int,
            final(objects)@.len() as int,
            limits,
        ),
        result is Ok ==> final(memory).estimated_bytes <= limits.max_membership_bytes,
        old(objects)@.len() <= limits.max_selected_objects ==> final(objects)@.len()
            <= limits.max_selected_objects,
        result is Ok ==> {
            &&& tracks(final(membership).members(), final(objects)@)
            &&& (Selection { objects: final(objects)@, bytes: *final(selected_bytes) as int })
                == select(
                (Selection { objects: old(objects)@, bytes: *old(selected_bytes) as int }),
                oid,
                size,
            )
            &&& *old(selected_bytes) <= limits.max_selected_bytes ==> *final(selected_bytes)
                <= limits.max_selected_bytes
        },
{
    let ghost first = membership.ordinal_generation;
    let known: bool = match membership.contains::<M::Error>(&oid, ordinal, limits) {
        Ok(known) => known,
        Err(error) => {
            proof {
                lemma_member_fault::<M, F, B, C>(source, limits, total, first, ordinal, error);
            }
            return Err(error);
        },
    };
    proof {
        lemma_generation_kept::<M, F::Error>(
            source,
            limits,
            first,
            ordinal,
            membership.ordinal_generation,
        );
    }
    if known {
        assert(objects@.contains(oid));
        return Ok(());
    }
    if objects.len() >= limits.max_selected_objects {
        return Err(NegotiationError::Limit(NegotiationLimitKind::SelectedObjects));
    }
    let next_bytes: u64 = match selected_bytes.checked_add(size) {
        Some(bytes) => bytes,
        None => {
            return Err(NegotiationError::Limit(NegotiationLimitKind::SelectedBytes));
        },
    };
    if next_bytes > limits.max_selected_bytes {
        return Err(NegotiationError::Limit(NegotiationLimitKind::SelectedBytes));
    }
    let ghost before = objects@;
    let ghost second = membership.ordinal_generation;
    let ghost holds = memory.estimated_bytes as int;
    match membership.insert::<M::Error, F, B, C>(
        oid,
        ordinal,
        limits,
        factory,
        memory,
        budget,
        cancellation,
    ) {
        Ok(_) => {
            proof {
                lemma_generation_kept::<M, F::Error>(
                    source,
                    limits,
                    second,
                    ordinal,
                    membership.ordinal_generation,
                );
            }
        },
        Err(error) => {
            proof {
                if member_fault::<M::Error, F::Set>(second, ordinal, limits, error) {
                    lemma_member_fault::<M, F, B, C>(source, limits, total, second, ordinal, error);
                } else {
                    lemma_storing_failed::<M, F, B, C>(source, limits, total, holds, error);
                }
            }
            return Err(error);
        },
    }
    assert(!before.contains(oid));
    objects.push(oid);
    *selected_bytes = next_bytes;
    proof {
        let after = objects@;
        assert(after[before.len() as int] == oid);
        assert forall|x: ObjectId| #[trigger]
            membership.members().contains(x) <==> after.contains(x) by {
            if before.contains(x) {
                let k = choose|k: int| 0 <= k < before.len() && before[k] == x;
                assert(after[k] == x);
            }
            if after.contains(x) && x != oid {
                let k = choose|k: int| 0 <= k < after.len() && after[k] == x;
                assert(before[k] == x);
            }
        }
    }
    Ok(())
}

/// Queue a tree, unless the queue is full.
fn push_tree_queue(
    queue: &mut VecDeque<(ObjectId, Option<StableObjectOrdinal>)>,
    item: (ObjectId, Option<StableObjectOrdinal>),
    maximum: usize,
) -> (result: Result<(), NegotiationLimitKind>)
    ensures
        result == if old(queue)@.len() >= maximum {
            Err::<(), NegotiationLimitKind>(NegotiationLimitKind::SelectedObjects)
        } else {
            Ok(())
        },
        result is Ok ==> final(queue)@ == old(queue)@.push(item),
        result is Err ==> final(queue)@ == old(queue)@,
{
    if queue.len() >= maximum {
        return Err(NegotiationLimitKind::SelectedObjects);
    }
    queue.push_back(item);
    Ok(())
}

/// The identities in a tree queue.
spec fn queue_oids(queue: Seq<(ObjectId, Option<StableObjectOrdinal>)>) -> Seq<ObjectId> {
    Seq::new(queue.len(), |i: int| queue[i].0)
}

/// Queue the subtrees and select the blobs of a tree.
fn expand_entries<M, F, B, C>(
    entries: &Vec<NegotiationTreeEntry>,
    algo: HashAlgo,
    queue: &mut VecDeque<(ObjectId, Option<StableObjectOrdinal>)>,
    selected: &mut Membership<F::Set>,
    objects: &mut Vec<ObjectId>,
    selected_bytes: &mut u64,
    limits: NegotiationLimits,
    factory: &mut F,
    memory: &mut MembershipMemory,
    budget: &mut B,
    cancellation: &C,
    Ghost(source): Ghost<M>,
    Ghost(held): Ghost<int>,
    Ghost(total): Ghost<int>,
    Ghost(tree): Ghost<NegotiationTree>,
) -> (result: Result<(), NegotiationError<M::Error, F::Error>>) where
    M: NegotiationMetadataSource,
    F: NegotiationSpillFactory,
    B: NegotiationWorkBudget,
    C: CancellationProbe,

    requires
        old(selected).purposed(),
        tracks(old(selected).members(), old(objects)@),
        old(objects)@.len() <= limits.max_selected_objects,
        *old(selected_bytes) <= limits.max_selected_bytes,
        M::answers_tree(source.catalogue(), tree.oid, limits.max_tree_entries, Ok(Some(tree))),
        tree.entries@ == entries@,
        tree.oid.spec_algo() == algo,
        queue_told(source, limits, old(queue)@),
        generation_told(source, limits, old(selected).ordinal_generation),
        0 <= held,
        kept_in(
            *old(selected),
            held,
            old(memory).estimated_bytes as int,
            old(objects)@.len() as int,
            limits,
        ),
        old(memory).estimated_bytes <= limits.max_membership_bytes,
    ensures
        if result is Ok {
            set_kept(
                *old(selected),
                *final(selected),
                old(factory).created(),
                final(factory).created(),
            )
        } else {
            set_left(
                *old(selected),
                *final(selected),
                old(factory).created(),
                final(factory).created(),
            )
        },
        result matches Err(error) ==> match error {
            NegotiationError::Limit(NegotiationLimitKind::SelectedObjects) => old(objects)@.len()
                + entries@.len() >= limits.max_selected_objects || old(queue)@.len()
                + entries@.len() >= limits.max_selected_objects,
            NegotiationError::Limit(NegotiationLimitKind::SelectedBytes) => *old(selected_bytes)
                + blob_bytes(entries@, entries@.len() as int) > limits.max_selected_bytes,
            _ => answers_explain::<M, F, B, C>(source, limits, total, error),
        },
        result is Ok ==> queue_told(source, limits, final(queue)@),
        result is Ok ==> generation_told(source, limits, final(selected).ordinal_generation),
        result is Ok ==> kept_in(
            *final(selected),
            held,
            final(memory).estimated_bytes as int,
            final(objects)@.len() as int,
            limits,
        ),
        result is Ok ==> final(memory).estimated_bytes <= limits.max_membership_bytes,
        final(objects)@.len() <= limits.max_selected_objects,
        result is Ok ==> {
            &&& tracks(final(selected).members(), final(objects)@)
            &&& *final(selected_bytes) <= limits.max_selected_bytes
            &&& final(objects)@.len() >= old(objects)@.len()
            &&& (Selection { objects: final(objects)@, bytes: *final(selected_bytes) as int })
                == select_entries(
                (Selection { objects: old(objects)@, bytes: *old(selected_bytes) as int }),
                entries@,
                entries@.len() as int,
            )
            &&& queue_oids(final(queue)@) == queue_oids(old(queue)@) + subtrees(
                entries@,
                entries@.len() as int,
            )
            &&& forall|i: int|
                0 <= i < entries@.len() ==> entry_fits(#[trigger] entries@[i], algo)
        },
{
    let ghost first = Selection { objects: objects@, bytes: *selected_bytes as int };
    let ghost waiting = queue_oids(queue@);
    let mut at: usize = 0;
    assert(waiting + subtrees(entries@, 0) =~= waiting);
    while at < entries.len()
        invariant
            at <= entries@.len(),
            set_kept(*old(selected), *selected, old(factory).created(), factory.created()),
            tracks(selected.members(), objects@),
            objects@.len() <= limits.max_selected_objects,
            *selected_bytes <= limits.max_selected_bytes,
            objects@.len() >= first.objects.len(),
            (Selection { objects: objects@, bytes: *selected_bytes as int }) == select_entries(
                first,
                entries@,
                at as int,
            ),
            queue_oids(queue@) == waiting + subtrees(entries@, at as int),
            forall|i: int| 0 <= i < at ==> entry_fits(#[trigger] entries@[i], algo),
            first.objects == old(objects)@,
            first.bytes == *old(selected_bytes),
            waiting.len() == old(queue)@.len(),
            M::answers_tree(source.catalogue(), tree.oid, limits.max_tree_entries, Ok(Some(tree))),
            tree.entries@ == entries@,
            tree.oid.spec_algo() == algo,
            queue_told(source, limits, queue@),
            generation_told(source, limits, selected.ordinal_generation),
            0 <= held,
            kept_in(
                *selected,
                held,
                memory.estimated_bytes as int,
                objects@.len() as int,
                limits,
            ),
            memory.estimated_bytes <= limits.max_membership_bytes,
        decreases entries.len() - at,
    {
        checkpoint(budget, cancellation)?;
        let entry = entries[at];
        let (role, size) = match classify_entry::<M::Error, F::Error>(&entry, algo) {
            Ok(classified) => classified,
            Err(error) => {
                assert(!entry_fits(entries@[at as int], algo));
                assert(!tree_fits(tree, tree.oid, limits));
                return Err(error);
            },
        };
        proof {
            lemma_entries_counted(first, entries@, at as int, entries@.len() as int);
            lemma_entries_counted(first, entries@, at + 1, entries@.len() as int);
            if let Some(given) = entry.ordinal {
                assert(tree.entries@[at as int].ordinal == Some(given));
                assert(tree_names(tree, given));
            }
            assert(queue_oids(queue@).len() == queue@.len());
        }
        let ghost before = queue@;
        match role {
            TreeEntryRole::Gitlink => {},
            TreeEntryRole::Tree => {
                match push_tree_queue(
                    queue,
                    (entry.oid, entry.ordinal),
                    limits.max_selected_objects,
                ) {
                    Ok(()) => {},
                    Err(kind) => {
                        return Err(NegotiationError::Limit(kind));
                    },
                }
                assert(queue_oids(queue@) =~= queue_oids(before).push(entry.oid));
                assert(waiting + subtrees(entries@, at + 1) =~= (waiting + subtrees(
                    entries@,
                    at as int,
                )).push(entry.oid));
            },
            TreeEntryRole::Blob => {
                select_object::<M, F, B, C>(
                    entry.oid,
                    entry.ordinal,
                    size,
                    selected,
                    objects,
                    selected_bytes,
                    limits,
                    factory,
                    memory,
                    budget,
                    cancellation,
                    Ghost(source),
                    Ghost(held),
                    Ghost(total),
                )?;
            },
        }
        at = at + 1;
    }
    Ok(())
}

/// Select every commit and queue its root tree.
fn select_commit_rows<M, F, B, C>(
    rows: &Vec<NegotiationCommit>,
    queue: &mut VecDeque<(ObjectId, Option<StableObjectOrdinal>)>,
    selected: &mut Membership<F::Set>,
    objects: &mut Vec<ObjectId>,
    selected_bytes: &mut u64,
    limits: NegotiationLimits,
    factory: &mut F,
    memory: &mut MembershipMemory,
    budget: &mut B,
    cancellation: &C,
    Ghost(source): Ghost<M>,
    Ghost(held): Ghost<int>,
    Ghost(total): Ghost<int>,
) -> (result: Result<(), NegotiationError<M::Error, F::Error>>) where
    M: NegotiationMetadataSource,
    F: NegotiationSpillFactory,
    B: NegotiationWorkBudget,
    C: CancellationProbe,

    requires
        old(selected).members() == Set::<ObjectId>::empty(),
        old(objects)@.len() == 0,
        old(queue)@.len() == 0,
        *old(selected_bytes) == 0,
        commits_given(source, limits, rows@),
        old(selected).ordinal_generation is None,
        old(selected).spill is None,
        old(selected).resident() == 0,
        held == old(memory).estimated_bytes,
        old(memory).estimated_bytes <= limits.max_membership_bytes,
    ensures
        if result is Ok {
            set_kept(
                *old(selected),
                *final(selected),
                old(factory).created(),
                final(factory).created(),
            )
        } else {
            set_left(
                *old(selected),
                *final(selected),
                old(factory).created(),
                final(factory).created(),
            )
        },
        result matches Err(error) ==> answers_explain::<M, F, B, C>(source, limits, total, error),
        result is Ok ==> queue_told(source, limits, final(queue)@),
        result is Ok ==> generation_told(source, limits, final(selected).ordinal_generation),
        result is Ok ==> kept_in(
            *final(selected),
            held,
            final(memory).estimated_bytes as int,
            final(objects)@.len() as int,
            limits,
        ),
        result is Ok ==> final(memory).estimated_bytes <= limits.max_membership_bytes,
        rows@.len() == 0 ==> result is Ok && *final(selected) == *old(selected)
            && final(objects)@.len() == 0 && final(queue)@.len() == 0 && *final(selected_bytes) == 0,
        result is Ok ==> {
            &&& tracks(final(selected).members(), final(objects)@)
            &&& final(objects)@.len() <= limits.max_selected_objects
            &&& *final(selected_bytes) <= limits.max_selected_bytes
            &&& (Selection { objects: final(objects)@, bytes: *final(selected_bytes) as int })
                == select_commits(rows@, rows@.len() as int)
            &&& queue_oids(final(queue)@) == root_trees(rows@, rows@.len() as int)
        },
{
    let mut at: usize = 0;
    proof {
        assert(objects@ =~= Seq::<ObjectId>::empty());
        assert(queue_oids(queue@) =~= Seq::<ObjectId>::empty());
        assert(tracks(selected.members(), objects@));
    }
    while at < rows.len()
        invariant
            at <= rows@.len(),
            set_kept(*old(selected), *selected, old(factory).created(), factory.created()),
            rows@.len() == 0 ==> *selected == *old(selected) && objects@.len() == 0 && queue@.len()
                == 0 && *selected_bytes == 0,
            tracks(selected.members(), objects@),
            objects@.len() <= limits.max_selected_objects,
            *selected_bytes <= limits.max_selected_bytes,
            (Selection { objects: objects@, bytes: *selected_bytes as int }) == select_commits(
                rows@,
                at as int,
            ),
            queue_oids(queue@) == root_trees(rows@, at as int),
            commits_given(source, limits, rows@),
            queue_told(source, limits, queue@),
            generation_told(source, limits, selected.ordinal_generation),
            0 <= held,
            kept_in(
                *selected,
                held,
                memory.estimated_bytes as int,
                objects@.len() as int,
                limits,
            ),
            memory.estimated_bytes <= limits.max_membership_bytes,
        decreases rows.len() - at,
    {
        checkpoint(budget, cancellation)?;
        let row = &rows[at];
        proof {
            assert(M::answers_commit(source.catalogue(), row.oid, limits.max_commit_parents, Ok(Some(*row))));
            if let Some(given) = row.ordinal {
                assert(commit_names(*row, given));
            }
            if let Some(given) = row.tree_ordinal {
                assert(commit_names(*row, given));
            }
            lemma_commits_counted(rows@, at as int);
            lemma_commit_bytes_grow(rows@, at + 1, rows@.len() as int);
            assert(trees_given(source, limits, Seq::<NegotiationTree>::empty()));
            lemma_roots_counted(rows@, at as int);
            assert(queue_oids(queue@).len() == queue@.len());
            if rows@.len() >= limits.max_selected_objects {
                assert(objects_reach(source, limits));
            }
            if commit_bytes(rows@, rows@.len() as int) > limits.max_selected_bytes {
                assert(bytes_reach(source, limits));
            }
        }
        select_object::<M, F, B, C>(
            row.oid,
            row.ordinal,
            row.size_bytes,
            selected,
            objects,
            selected_bytes,
            limits,
            factory,
            memory,
            budget,
            cancellation,
            Ghost(source),
            Ghost(held),
            Ghost(total),
        )?;
        let ghost before = queue@;
        match push_tree_queue(queue, (row.tree, row.tree_ordinal), limits.max_selected_objects) {
            Ok(()) => {},
            Err(kind) => {
                return Err(NegotiationError::Limit(kind));
            },
        }
        assert(queue_oids(queue@) =~= queue_oids(before).push(row.tree));
        at = at + 1;
    }
    Ok(())
}

/// What expanding the trees found.
struct TreeExpansion {
    reads: u64,
    trees: Ghost<Seq<NegotiationTree>>,
    positions: Ghost<Seq<int>>,
}

/// Every pending tree is selected.
pub open spec fn closure_complete(
    rows: Seq<NegotiationCommit>,
    trees: Seq<NegotiationTree>,
) -> bool {
    let pending = pending_trees(rows, trees, trees.len() as int);
    let objects = select_trees(rows, trees, trees.len() as int).objects;
    forall|i: int| 0 <= i < pending.len() ==> objects.contains(#[trigger] pending[i])
}

/// What holds between two trees of an expansion.
spec fn expanding(
    rows: Seq<NegotiationCommit>,
    trees: Seq<NegotiationTree>,
    positions: Seq<int>,
    taken: int,
    waiting: Seq<ObjectId>,
    objects: Seq<ObjectId>,
    bytes: int,
    limits: NegotiationLimits,
) -> bool {
    let pending = pending_trees(rows, trees, trees.len() as int);
    &&& trees_read(rows, trees, positions, limits)
    &&& forall|k: int| 0 <= k < positions.len() ==> #[trigger] positions[k] < taken
    &&& 0 <= taken <= pending.len()
    &&& waiting == pending.skip(taken)
    &&& select_trees(rows, trees, trees.len() as int) == (Selection { objects, bytes })
    &&& forall|i: int| 0 <= i < taken ==> objects.contains(#[trigger] pending[i])
}

/// A further tree changes nothing of what the trees before it say.
proof fn lemma_trees_extend(
    rows: Seq<NegotiationCommit>,
    trees: Seq<NegotiationTree>,
    tree: NegotiationTree,
    count: int,
)
    requires
        count <= trees.len(),
    ensures
        select_trees(rows, trees.push(tree), count) == select_trees(rows, trees, count),
        pending_trees(rows, trees.push(tree), count) == pending_trees(rows, trees, count),
    decreases count,
{
    if count > 0 {
        lemma_trees_extend(rows, trees, tree, count - 1);
        assert(trees.push(tree)[count - 1] == trees[count - 1]);
    }
}

/// Selecting blobs keeps what was selected.
proof fn lemma_entries_keep(
    selection: Selection,
    entries: Seq<NegotiationTreeEntry>,
    count: int,
    oid: ObjectId,
)
    requires
        selection.objects.contains(oid),
    ensures
        select_entries(selection, entries, count).objects.contains(oid),
    decreases count,
{
    if count > 0 {
        lemma_entries_keep(selection, entries, count - 1, oid);
        let before = select_entries(selection, entries, count - 1);
        lemma_select_keeps(before, entries[count - 1].oid, entries[count - 1].size_bytes->0, oid);
    }
}

/// Selecting an object keeps what was selected and adds the object.
proof fn lemma_select_keeps(selection: Selection, added: ObjectId, size: u64, oid: ObjectId)
    ensures
        selection.objects.contains(oid) ==> select(selection, added, size).objects.contains(oid),
        select(selection, added, size).objects.contains(added),
{
    let after = select(selection, added, size).objects;
    if !selection.objects.contains(added) {
        assert(after[selection.objects.len() as int] == added);
        if selection.objects.contains(oid) {
            let k = choose|k: int|
                0 <= k < selection.objects.len() && selection.objects[k] == oid;
            assert(after[k] == oid);
        }
    }
}

/// A pending tree that is already selected may be passed over.
proof fn lemma_expand_skip(
    rows: Seq<NegotiationCommit>,
    trees: Seq<NegotiationTree>,
    positions: Seq<int>,
    taken: int,
    waiting: Seq<ObjectId>,
    objects: Seq<ObjectId>,
    bytes: int,
    limits: NegotiationLimits,
)
    requires
        expanding(rows, trees, positions, taken, waiting, objects, bytes, limits),
        waiting.len() > 0,
        objects.contains(waiting[0]),
    ensures
        expanding(rows, trees, positions, taken + 1, waiting.skip(1), objects, bytes, limits),
{
    let pending = pending_trees(rows, trees, trees.len() as int);
    assert(waiting.skip(1) =~= pending.skip(taken + 1));
    assert(pending[taken] == waiting[0]);
}

/// Expanding the first pending tree keeps the expansion.
proof fn lemma_expand_tree(
    rows: Seq<NegotiationCommit>,
    trees: Seq<NegotiationTree>,
    positions: Seq<int>,
    taken: int,
    waiting: Seq<ObjectId>,
    objects: Seq<ObjectId>,
    bytes: int,
    limits: NegotiationLimits,
    tree: NegotiationTree,
    after: Seq<ObjectId>,
    after_bytes: int,
)
    requires
        expanding(rows, trees, positions, taken, waiting, objects, bytes, limits),
        waiting.len() > 0,
        !objects.contains(waiting[0]),
        tree_fits(tree, waiting[0], limits),
        (Selection { objects: after, bytes: after_bytes }) == select_entries(
            select((Selection { objects, bytes }), tree.oid, tree.size_bytes),
            tree.entries@,
            tree.entries@.len() as int,
        ),
    ensures
        expanding(
            rows,
            trees.push(tree),
            positions.push(taken),
            taken + 1,
            waiting.skip(1) + subtrees(tree.entries@, tree.entries@.len() as int),
            after,
            after_bytes,
            limits,
        ),
{
    let more = trees.push(tree);
    let places = positions.push(taken);
    let n = trees.len() as int;
    let pending = pending_trees(rows, trees, n);
    let all = pending_trees(rows, more, n + 1);
    lemma_trees_extend(rows, trees, tree, n);
    assert(more[n] == tree);
    let fresh = subtrees(tree.entries@, tree.entries@.len() as int);
    assert(all == pending + fresh);
    assert(pending[taken] == waiting[0]);
    assert(waiting.skip(1) + fresh =~= all.skip(taken + 1));
    assert forall|k: int| 0 <= k < more.len() implies #[trigger] tree_read(
        rows,
        more,
        places,
        limits,
        k,
    ) by {
        lemma_trees_extend(rows, trees, tree, k);
        if k < n {
            assert(tree_read(rows, trees, positions, limits, k));
            assert(more[k] == trees[k]);
            assert(places[k] == positions[k]);
        }
    }
    assert forall|i: int, j: int|
        #![trigger places[i], places[j]]
        0 <= i < j < places.len() implies places[i] < places[j] by {
        if j < positions.len() {
            assert(places[i] == positions[i] && places[j] == positions[j]);
        } else {
            assert(places[i] == positions[i]);
        }
    }
    assert forall|k: int| 0 <= k < places.len() implies #[trigger] places[k] < taken + 1 by {
        if k < positions.len() {
            assert(places[k] == positions[k]);
        }
    }
    let chosen = select((Selection { objects, bytes }), tree.oid, tree.size_bytes);
    assert forall|i: int| 0 <= i < taken + 1 implies after.contains(#[trigger] all[i]) by {
        lemma_select_keeps((Selection { objects, bytes }), tree.oid, tree.size_bytes, all[i]);
        if i < taken {
            assert(all[i] == pending[i]);
            assert(objects.contains(pending[i]));
        } else {
            assert(all[i] == pending[taken]);
        }
        lemma_entries_keep(chosen, tree.entries@, tree.entries@.len() as int, all[i]);
    }
}

/// Read and expand every pending tree.
fn expand_trees<M, F, B, C>(
    source: &mut M,
    rows: Ghost<Seq<NegotiationCommit>>,
    queue: &mut VecDeque<(ObjectId, Option<StableObjectOrdinal>)>,
    selected: &mut Membership<F::Set>,
    objects: &mut Vec<ObjectId>,
    selected_bytes: &mut u64,
    limits: NegotiationLimits,
    factory: &mut F,
    memory: &mut MembershipMemory,
    budget: &mut B,
    cancellation: &C,
    Ghost(origin): Ghost<M>,
    Ghost(held): Ghost<int>,
    Ghost(total): Ghost<int>,
) -> (result: Result<TreeExpansion, NegotiationError<M::Error, F::Error>>) where
    M: NegotiationMetadataSource,
    F: NegotiationSpillFactory,
    B: NegotiationWorkBudget,
    C: CancellationProbe,

    requires
        old(source).catalogue() == origin.catalogue(),
        old(selected).purposed(),
        tracks(old(selected).members(), old(objects)@),
        old(objects)@.len() <= limits.max_selected_objects,
        *old(selected_bytes) <= limits.max_selected_bytes,
        (Selection { objects: old(objects)@, bytes: *old(selected_bytes) as int })
            == select_commits(rows@, rows@.len() as int),
        queue_oids(old(queue)@) == root_trees(rows@, rows@.len() as int),
        commits_given(origin, limits, rows@),
        queue_told(origin, limits, old(queue)@),
        generation_told(origin, limits, old(selected).ordinal_generation),
        0 <= held,
        kept_in(
            *old(selected),
            held,
            old(memory).estimated_bytes as int,
            old(objects)@.len() as int,
            limits,
        ),
        old(memory).estimated_bytes <= limits.max_membership_bytes,
    ensures
        if result is Ok {
            set_kept(
                *old(selected),
                *final(selected),
                old(factory).created(),
                final(factory).created(),
            )
        } else {
            set_left(
                *old(selected),
                *final(selected),
                old(factory).created(),
                final(factory).created(),
            )
        },
        result matches Err(error) ==> answers_explain::<M, F, B, C>(
            origin,
            limits,
            total,
            error,
        ),
        result is Ok ==> kept_in(
            *final(selected),
            held,
            final(memory).estimated_bytes as int,
            final(objects)@.len() as int,
            limits,
        ),
        old(queue)@.len() == 0 ==> result is Ok && *final(selected) == *old(selected)
            && final(objects)@ == old(objects)@,
        final(source).catalogue() == old(source).catalogue(),
        final(source).commit_reads() == old(source).commit_reads(),
        old(source).tree_reads().is_prefix_of(final(source).tree_reads()),
        result is Ok ==> final(source).tree_reads() == old(source).tree_reads() + tree_oids(
            result->Ok_0.trees@,
        ),
        result is Ok ==> {
            let trees = result->Ok_0.trees@;
            &&& trees_read(rows@, trees, result->Ok_0.positions@, limits)
            &&& closure_complete(rows@, trees)
            &&& result->Ok_0.reads == trees.len()
            &&& (Selection { objects: final(objects)@, bytes: *final(selected_bytes) as int })
                == select_trees(rows@, trees, trees.len() as int)
            &&& final(objects)@.len() <= limits.max_selected_objects
            &&& *final(selected_bytes) <= limits.max_selected_bytes
            &&& trees_given(origin, limits, trees)
        },
{
    let mut reads: u64 = 0;
    let ghost mut trees: Seq<NegotiationTree> = Seq::empty();
    let ghost mut positions: Seq<int> = Seq::empty();
    let ghost mut taken: int = 0;
    let ghost earlier = source.tree_reads();
    proof {
        let pending = pending_trees(rows@, trees, 0);
        assert(pending.skip(0) =~= pending);
        assert(earlier + tree_oids(trees) =~= earlier);
    }
    loop
        invariant
            old(queue)@.len() == 0 ==> queue@.len() == 0 && *selected == *old(selected) && objects@
                == old(objects)@,
            set_kept(*old(selected), *selected, old(factory).created(), factory.created()),
            tracks(selected.members(), objects@),
            objects@.len() <= limits.max_selected_objects,
            *selected_bytes <= limits.max_selected_bytes,
            expanding(
                rows@,
                trees,
                positions,
                taken,
                queue_oids(queue@),
                objects@,
                *selected_bytes as int,
                limits,
            ),
            earlier == old(source).tree_reads(),
            source.tree_reads() == earlier + tree_oids(trees),
            source.commit_reads() == old(source).commit_reads(),
            source.catalogue() == origin.catalogue(),
            old(source).catalogue() == origin.catalogue(),
            reads == trees.len(),
            trees_given(origin, limits, trees),
            commits_given(origin, limits, rows@),
            queue_told(origin, limits, queue@),
            generation_told(origin, limits, selected.ordinal_generation),
            0 <= held,
            kept_in(
                *selected,
                held,
                memory.estimated_bytes as int,
                objects@.len() as int,
                limits,
            ),
            memory.estimated_bytes <= limits.max_membership_bytes,
        decreases limits.max_selected_objects - objects@.len(), queue@.len(),
    {
        let ghost waiting = queue_oids(queue@);
        let ghost queued = queue@;
        let (oid, ordinal) = match queue.pop_front() {
            Some(item) => item,
            None => {
                proof {
                    let pending = pending_trees(rows@, trees, trees.len() as int);
                    assert(waiting.len() == 0);
                    assert(pending.skip(taken).len() == pending.len() - taken);
                }
                return Ok(
                    TreeExpansion { reads, trees: Ghost(trees), positions: Ghost(positions) },
                );
            },
        };
        assert(queue_oids(queue@) =~= waiting.skip(1));
        proof {
            assert(queued[0] == (oid, ordinal));
            assert(told(origin, limits, ordinal));
            assert forall|i: int| 0 <= i < queue@.len() implies told(
                origin,
                limits,
                (#[trigger] queue@[i]).1,
            ) by {
                assert(queue@[i] == queued[i + 1]);
            }
            lemma_trees_counted(rows@, trees, trees.len() as int);
        }
        checkpoint(budget, cancellation)?;
        let ghost first = selected.ordinal_generation;
        let known: bool = match selected.contains::<M::Error>(&oid, ordinal, limits) {
            Ok(known) => known,
            Err(error) => {
                proof {
                    lemma_member_fault::<M, F, B, C>(
                        origin,
                        limits,
                        total,
                        first,
                        ordinal,
                        error,
                    );
                }
                return Err(error);
            },
        };
        proof {
            lemma_generation_kept::<M, F::Error>(
                origin,
                limits,
                first,
                ordinal,
                selected.ordinal_generation,
            );
        }
        if known {
            proof {
                lemma_expand_skip(
                    rows@,
                    trees,
                    positions,
                    taken,
                    waiting,
                    objects@,
                    *selected_bytes as int,
                    limits,
                );
                taken = taken + 1;
            }
            continue;
        }
        if objects.len() >= limits.max_selected_objects {
            return Err(NegotiationError::Limit(NegotiationLimitKind::SelectedObjects));
        }
        let tree = match source.read_tree(&oid, limits.max_tree_entries) {
            Ok(Some(tree)) => tree,
            Ok(None) => {
                return Err(NegotiationError::MissingMetadata);
            },
            Err(error) => {
                assert(M::answers_tree(origin.catalogue(), oid, limits.max_tree_entries, Err(error)));
                assert(answered_failure(origin, limits, error));
                return Err(NegotiationError::Metadata(error));
            },
        };
        reads =
        match reads.checked_add(1) {
            Some(reads) => reads,
            None => {
                return Err(NegotiationError::Limit(NegotiationLimitKind::SelectedObjects));
            },
        };
        if tree.entries.len() > limits.max_tree_entries {
            return Err(NegotiationError::Limit(NegotiationLimitKind::TreeEntries));
        }
        if tree.oid != oid {
            assert(!tree_fits(tree, oid, limits));
            return Err(NegotiationError::CorruptMetadata);
        }
        let ghost more = trees.push(tree);
        proof {
            if let Some(given) = tree.ordinal {
                assert(tree_names(tree, given));
            }
            assert(trees_given(origin, limits, more));
            lemma_trees_agree(trees, more, trees.len() as int);
            assert(more[more.len() - 1] == tree);
            lemma_entries_counted(
                (Selection { objects: objects@, bytes: *selected_bytes as int }),
                tree.entries@,
                0,
                tree.entries@.len() as int,
            );
            if rows@.len() + more.len() + entries_before(more, more.len() as int)
                >= limits.max_selected_objects {
                assert(objects_reach(origin, limits));
            }
            if commit_bytes(rows@, rows@.len() as int) + tree_bytes(more, more.len() as int)
                > limits.max_selected_bytes {
                assert(bytes_reach(origin, limits));
            }
            assert(queue_oids(queue@).len() == queue@.len());
        }
        let ghost before = objects@;
        let ghost before_bytes = *selected_bytes as int;
        select_object::<M, F, B, C>(
            tree.oid,
            tree.ordinal,
            tree.size_bytes,
            selected,
            objects,
            selected_bytes,
            limits,
            factory,
            memory,
            budget,
            cancellation,
            Ghost(origin),
            Ghost(held),
            Ghost(total),
        )?;
        expand_entries::<M, F, B, C>(
            &tree.entries,
            oid.algo(),
            queue,
            selected,
            objects,
            selected_bytes,
            limits,
            factory,
            memory,
            budget,
            cancellation,
            Ghost(origin),
            Ghost(held),
            Ghost(total),
            Ghost(tree),
        )?;
        proof {
            lemma_expand_tree(
                rows@,
                trees,
                positions,
                taken,
                waiting,
                before,
                before_bytes,
                limits,
                tree,
                objects@,
                *selected_bytes as int,
            );
            assert(earlier + tree_oids(trees.push(tree)) =~= (earlier + tree_oids(trees)).push(oid));
            trees = trees.push(tree);
            positions = positions.push(taken);
            taken = taken + 1;
        }
    }
}

/// The commits of the rows, in order.
pub open spec fn row_oids(rows: Seq<NegotiationCommit>) -> Seq<ObjectId> {
    Seq::new(rows.len(), |i: int| rows[i].oid)
}

/// The trees of the rows, in order.
pub open spec fn tree_oids(trees: Seq<NegotiationTree>) -> Seq<ObjectId> {
    Seq::new(trees.len(), |i: int| trees[i].oid)
}

/// The commits that the rows are about.
pub open spec fn row_set(rows: Seq<NegotiationCommit>) -> Set<ObjectId> {
    Set::new(|oid: ObjectId| has_row(rows, oid))
}

/// Rows read for a plan, and what each was read for.
pub struct NegotiationTrace {
    /// Rows of the commits reachable from the haves.
    pub have_rows: Seq<NegotiationCommit>,
    /// The queue items that they were read for.
    pub have_items: Seq<CommitQueueItem>,
    /// Rows of the selected commits.
    pub want_rows: Seq<NegotiationCommit>,
    /// The queue items that they were read for.
    pub want_items: Seq<CommitQueueItem>,
    /// Rows of the expanded trees.
    pub trees: Seq<NegotiationTree>,
    /// Where each stands among the pending trees.
    pub positions: Seq<int>,
}

/// The plan is what the rows read say: the haves' ancestry is closed, the wants' ancestry outside
/// it is closed and visited by rank, and the objects are those commits and all they name.
pub open spec fn plan_follows(
    plan: NegotiationPlan,
    wants: Seq<ObjectId>,
    haves: Seq<ObjectId>,
    limits: NegotiationLimits,
    trace: NegotiationTrace,
) -> bool {
    let have_roots = first_occurrences(haves);
    let want_roots = first_occurrences(wants);
    let excluded = row_set(trace.have_rows);
    let selection = select_trees(trace.want_rows, trace.trees, trace.trees.len() as int);
    &&& plan.common_haves@ == have_roots
    &&& rows_visited(have_roots, Set::empty(), trace.have_rows, trace.have_items, limits)
    &&& walk_closed(have_roots, Set::empty(), trace.have_rows)
    &&& rows_visited(want_roots, excluded, trace.want_rows, trace.want_items, limits)
    &&& walk_closed(want_roots, excluded, trace.want_rows)
    &&& trees_read(trace.want_rows, trace.trees, trace.positions, limits)
    &&& closure_complete(trace.want_rows, trace.trees)
    &&& plan.commits@ == row_oids(trace.want_rows)
    &&& plan.objects@ == selection.objects
    &&& plan.selected_bytes == selection.bytes
    &&& plan.objects@.len() <= limits.max_selected_objects
    &&& plan.selected_bytes <= limits.max_selected_bytes
    &&& plan.commit_metadata_reads == trace.have_rows.len() + trace.want_rows.len()
    &&& plan.commit_metadata_reads <= limits.max_visited_commits
    &&& plan.tree_metadata_reads == trace.trees.len()
    &&& plan.used_generations == (rows_use_generations(trace.have_rows) || rows_use_generations(
        trace.want_rows,
    ))
    &&& plan.spilled == sets_spill(
        trace.have_rows.len() as int,
        trace.want_rows.len() as int,
        plan.objects@.len() as int,
        limits,
    )
}

/// One of the three sets is moved to a spill set: the excluded commits, the visited ones or the
/// selected objects, which share the memory in this order.
pub open spec fn sets_spill(
    excluded: int,
    visited: int,
    selected: int,
    limits: NegotiationLimits,
) -> bool {
    let first = held_after(excluded, 0, limits);
    let second = held_after(visited, first, limits);
    ||| spills(excluded, 0, limits)
    ||| spills(visited, first, limits)
    ||| spills(selected, second, limits)
}

/// The purposes of the spill sets that were made, in order.
pub open spec fn spill_roles(excluded: bool, visited: bool, selected: bool) -> Seq<
    NegotiationSpillRole,
> {
    let first = if excluded {
        seq![NegotiationSpillRole::ExcludedCommits]
    } else {
        Seq::empty()
    };
    let second = if visited {
        first.push(NegotiationSpillRole::VisitedCommits)
    } else {
        first
    };
    if selected {
        second.push(NegotiationSpillRole::SelectedObjects)
    } else {
        second
    }
}

/// The purposes of the spill sets that a plan made: one for each set that outgrew the memory.
pub open spec fn plan_roles(plan: NegotiationPlan, limits: NegotiationLimits) -> Seq<
    NegotiationSpillRole,
> {
    let excluded = plan.commit_metadata_reads - plan.commits@.len();
    let visited = plan.commits@.len() as int;
    let selected = plan.objects@.len() as int;
    let first = held_after(excluded, 0, limits);
    let second = held_after(visited, first, limits);
    spill_roles(
        spills(excluded, 0, limits),
        spills(visited, first, limits),
        spills(selected, second, limits),
    )
}

/// Every spill set made since was cleared.
pub open spec fn all_cleared<F: NegotiationSpillFactory>(before: F, after: F) -> bool {
    forall|k: int|
        before.created().len() <= k < after.created().len() ==> cleared::<F::Set>(
            #[trigger] after.created()[k],
        )
}

/// Every spill set made since was cleared without failure.
pub open spec fn all_emptied<F: NegotiationSpillFactory>(before: F, after: F) -> bool {
    forall|k: int|
        before.created().len() <= k < after.created().len() ==> F::Set::clears(
            #[trigger] after.created()[k],
            Ok(()),
        )
}

/// At most one spill set was made for each purpose.
pub open spec fn made_once<F: NegotiationSpillFactory>(before: F, after: F) -> bool {
    exists|excluded: bool, visited: bool, selected: bool|
        after.created() == before.created() + #[trigger] spill_roles(excluded, visited, selected)
}

/// The membership sets hold the spill sets that were made since, or these are cleared already.
spec fn sets_held<S: NegotiationSpillSet>(
    excluded: Membership<S>,
    visited: Membership<S>,
    selected: Membership<S>,
    made: Seq<NegotiationSpillRole>,
    made_after: Seq<NegotiationSpillRole>,
    with_excluded: bool,
    with_visited: bool,
    with_selected: bool,
) -> bool {
    &&& made_after == made + spill_roles(with_excluded, with_visited, with_selected)
    &&& with_excluded ==> excluded.spill is Some || cleared::<S>(excluded.role)
    &&& with_visited ==> visited.spill is Some || cleared::<S>(visited.role)
    &&& with_selected ==> selected.spill is Some || cleared::<S>(selected.role)
}

/// The purposes of the three sets.
spec fn three_roles<S: NegotiationSpillSet>(
    excluded: Membership<S>,
    visited: Membership<S>,
    selected: Membership<S>,
) -> bool {
    &&& excluded.role is ExcludedCommits && excluded.purposed()
    &&& visited.role is VisitedCommits && visited.purposed()
    &&& selected.role is SelectedObjects && selected.purposed()
}

/// Every row of the trace came from the source.
pub open spec fn trace_given<M: NegotiationMetadataSource>(
    source: M,
    limits: NegotiationLimits,
    trace: NegotiationTrace,
) -> bool {
    &&& commits_given(source, limits, trace.have_rows)
    &&& commits_given(source, limits, trace.want_rows)
    &&& trees_given(source, limits, trace.trees)
}

/// The rows of the trace are what was read of the source, each by one read.
pub open spec fn trace_read<M: NegotiationMetadataSource>(
    before: M,
    after: M,
    trace: NegotiationTrace,
) -> bool {
    &&& after.commit_reads() == before.commit_reads() + row_oids(trace.have_rows) + row_oids(
        trace.want_rows,
    )
    &&& after.tree_reads() == before.tree_reads() + tree_oids(trace.trees)
}

/// Some rows that the source gave, and no others that were read of it, justify the plan.
pub open spec fn plan_sound<M: NegotiationMetadataSource>(
    plan: NegotiationPlan,
    wants: Seq<ObjectId>,
    haves: Seq<ObjectId>,
    limits: NegotiationLimits,
    before: M,
    after: M,
) -> bool {
    exists|trace: NegotiationTrace| #[trigger]
        plan_follows(plan, wants, haves, limits, trace) && trace_given(before, limits, trace)
            && trace_read(before, after, trace)
}

/// Collect the commits of kept rows.
fn collect_oids(rows: &Vec<NegotiationCommit>) -> (oids: Vec<ObjectId>)
    ensures
        oids@ == row_oids(rows@),
{
    let mut oids: Vec<ObjectId> = Vec::new();
    let mut at: usize = 0;
    while at < rows.len()
        invariant
            at <= rows@.len(),
            oids@.len() == at,
            forall|i: int| 0 <= i < at ==> #[trigger] oids@[i] == rows@[i].oid,
        decreases rows.len() - at,
    {
        oids.push(rows[at].oid);
        at = at + 1;
    }
    assert(oids@ =~= row_oids(rows@));
    oids
}

/// Nothing was stored or seen yet.
spec fn fresh<S: NegotiationSpillSet>(membership: Membership<S>) -> bool {
    &&& membership.spill is None
    &&& membership.resident() == 0
    &&& membership.ordinal_generation is None
}

/// Plan with the membership sets given.
fn negotiate_with<M, F, B, C>(
    source: &mut M,
    wants: &[ObjectId],
    haves: &[ObjectId],
    limits: NegotiationLimits,
    excluded: &mut Membership<F::Set>,
    visited: &mut Membership<F::Set>,
    selected: &mut Membership<F::Set>,
    spill_factory: &mut F,
    budget: &mut B,
    cancellation: &C,
) -> (result: Result<
    (NegotiationPlan, Ghost<NegotiationTrace>),
    NegotiationError<M::Error, F::Error>,
>) where
    M: NegotiationMetadataSource,
    F: NegotiationSpillFactory,
    B: NegotiationWorkBudget,
    C: CancellationProbe,

    requires
        old(excluded).members() == Set::<ObjectId>::empty(),
        old(visited).members() == Set::<ObjectId>::empty(),
        old(selected).members() == Set::<ObjectId>::empty(),
        fresh(*old(excluded)),
        fresh(*old(visited)),
        fresh(*old(selected)),
        three_roles(*old(excluded), *old(visited), *old(selected)),
    ensures
        three_roles(*final(excluded), *final(visited), *final(selected)),
        exists|first: bool, second: bool, third: bool| #[trigger]
            sets_held(
                *final(excluded),
                *final(visited),
                *final(selected),
                old(spill_factory).created(),
                final(spill_factory).created(),
                first,
                second,
                third,
            ),
        result is Ok ==> {
            &&& final(spill_factory).created() == old(spill_factory).created() + spill_roles(
                final(excluded).spill is Some,
                final(visited).spill is Some,
                final(selected).spill is Some,
            )
            &&& final(spill_factory).created() == old(spill_factory).created() + plan_roles(
                result->Ok_0.0,
                limits,
            )
        },
        result matches Err(error) ==> answers_explain::<M, F, B, C>(
            *old(source),
            limits,
            (wants@.len() + haves@.len()) as int,
            error,
        ),
        result is Ok && wants@.len() + haves@.len() > 0 ==> granted::<B, C>(),
        wants@.len() * 64 > limits.max_membership_bytes || haves@.len() * 64
            > limits.max_membership_bytes ==> result is Err,
        final(source).catalogue() == old(source).catalogue(),
        wants@.len() == 0 && haves@.len() == 0 ==> result is Ok && *final(excluded) == *old(excluded) && *final(visited) == *old(visited) && *final(selected) == *old(selected),
        result is Ok ==> plan_follows(
            result->Ok_0.0,
            wants@,
            haves@,
            limits,
            result->Ok_0.1@,
        ) && trace_given(*old(source), limits, result->Ok_0.1@) && trace_read(
            *old(source),
            *final(source),
            result->Ok_0.1@,
        ),
        read_once(old(source).commit_reads(), final(source).commit_reads(), Set::empty()),
        final(source).commit_reads().len() - old(source).commit_reads().len()
            <= limits.max_visited_commits,
        old(source).tree_reads().is_prefix_of(final(source).tree_reads()),
{
    let ghost origin = *source;
    let ghost made = spill_factory.created();
    proof {
        assert(made + spill_roles(false, false, false) =~= made);
        assert(sets_held(
            *excluded,
            *visited,
            *selected,
            made,
            spill_factory.created(),
            false,
            false,
            false,
        ));
    }
    let want_roots: Vec<ObjectId> = dedupe_roots(
        wants,
        limits.max_membership_bytes,
        budget,
        cancellation,
    )?;
    let common_haves: Vec<ObjectId> = dedupe_roots(
        haves,
        limits.max_membership_bytes,
        budget,
        cancellation,
    )?;
    proof {
        law_first_occurrences(wants@);
        law_first_occurrences(haves@);
    }
    let mut memory = MembershipMemory { estimated_bytes: 0 };
    let mut reads: u64 = 0;
    let mut none: Membership<F::Set> = Membership::new(NegotiationSpillRole::ExcludedCommits);
    let ghost total = (wants@.len() + haves@.len()) as int;
    let walked = walk_commits(
        source,
        &common_haves,
        &mut none,
        excluded,
        limits,
        spill_factory,
        &mut memory,
        &mut reads,
        false,
        budget,
        cancellation,
        Ghost(origin),
        Ghost(Seq::empty()),
        Ghost(total),
    );
    let ghost first = spill_factory.created() != made;
    proof {
        assert(made.push(NegotiationSpillRole::ExcludedCommits) =~= made + spill_roles(
            true,
            false,
            false,
        ));
        assert(sets_held(
            *excluded,
            *visited,
            *selected,
            made,
            spill_factory.created(),
            first,
            false,
            false,
        ));
    }
    let have_walk: CommitWalk = walked?;
    let ghost made_first = spill_factory.created();
    assert(excluded.members() =~= row_set(have_walk.rows@));
    let ghost have_reads = source.commit_reads();
    let walked = walk_commits(
        source,
        &want_roots,
        excluded,
        visited,
        limits,
        spill_factory,
        &mut memory,
        &mut reads,
        true,
        budget,
        cancellation,
        Ghost(origin),
        Ghost(have_walk.rows@),
        Ghost(total),
    );
    proof {
        lemma_read_once_joins(
            origin.commit_reads(),
            have_reads,
            source.commit_reads(),
            have_walk.rows@,
        );
    }
    let ghost second = spill_factory.created() != made_first;
    proof {
        assert(made_first.push(NegotiationSpillRole::VisitedCommits) =~= made + spill_roles(
            first,
            true,
            false,
        ));
        assert(sets_held(
            *excluded,
            *visited,
            *selected,
            made,
            spill_factory.created(),
            first,
            second,
            false,
        ));
    }
    let want_walk: CommitWalk = walked?;
    let ghost made_second = spill_factory.created();
    let ghost held = memory.estimated_bytes as int;
    let mut objects: Vec<ObjectId> = Vec::new();
    let mut selected_bytes: u64 = 0;
    let mut queue: VecDeque<(ObjectId, Option<StableObjectOrdinal>)> = VecDeque::new();
    proof {
        if wants@.len() == 0 {
            lemma_no_roots(want_roots@, excluded.members(), want_walk.rows@, want_walk.items@, limits);
        }
    }
    let chosen = select_commit_rows::<M, F, B, C>(
        &want_walk.kept,
        &mut queue,
        selected,
        &mut objects,
        &mut selected_bytes,
        limits,
        spill_factory,
        &mut memory,
        budget,
        cancellation,
        Ghost(origin),
        Ghost(held),
        Ghost(total),
    );
    proof {
        let third = spill_factory.created() != made_second;
        assert(made_second.push(NegotiationSpillRole::SelectedObjects) =~= made + spill_roles(
            first,
            second,
            true,
        ));
        assert(sets_held(
            *excluded,
            *visited,
            *selected,
            made,
            spill_factory.created(),
            first,
            second,
            third,
        ));
    }
    chosen?;
    let expanded = expand_trees(
        source,
        want_walk.rows,
        &mut queue,
        selected,
        &mut objects,
        &mut selected_bytes,
        limits,
        spill_factory,
        &mut memory,
        budget,
        cancellation,
        Ghost(origin),
        Ghost(held),
        Ghost(total),
    );
    proof {
        let third = spill_factory.created() != made_second;
        assert(sets_held(
            *excluded,
            *visited,
            *selected,
            made,
            spill_factory.created(),
            first,
            second,
            third,
        ));
    }
    let expansion: TreeExpansion = expanded?;
    let plan = NegotiationPlan {
        common_haves,
        commits: collect_oids(&want_walk.kept),
        objects,
        selected_bytes,
        commit_metadata_reads: reads,
        tree_metadata_reads: expansion.reads,
        used_generations: have_walk.used_generations || want_walk.used_generations,
        spilled: excluded.spilled() || visited.spilled() || selected.spilled(),
    };
    let ghost trace = NegotiationTrace {
        have_rows: have_walk.rows@,
        have_items: have_walk.items@,
        want_rows: want_walk.rows@,
        want_items: want_walk.items@,
        trees: expansion.trees@,
        positions: expansion.positions@,
    };
    assert(plan_follows(plan, wants@, haves@, limits, trace));
    Ok((plan, Ghost(trace)))
}

/// Without roots nothing is visited.
proof fn lemma_no_roots(
    roots: Seq<ObjectId>,
    excluded: Set<ObjectId>,
    rows: Seq<NegotiationCommit>,
    items: Seq<CommitQueueItem>,
    limits: NegotiationLimits,
)
    requires
        roots.len() == 0,
        rows_visited(roots, excluded, rows, items, limits),
    ensures
        rows.len() == 0,
{
    if rows.len() > 0 {
        assert(visited_row(roots, excluded, rows, items, limits, 0));
        assert(queued_item(roots, rows.take(0), items[0]));
        assert(rows.take(0).len() == 0);
    }
}

/// Plan a fetch in two phases using only indexed commit and tree metadata.
///
/// The haves' ancestry is materialized once into shared exclusion membership. Generations order
/// the traversal where they are indexed; otherwise it falls back to insertion order. Every spill
/// set is cleared before the call returns.
pub fn negotiate_bounded<M, F, B, C>(
    source: &mut M,
    wants: &[ObjectId],
    haves: &[ObjectId],
    limits: NegotiationLimits,
    spill_factory: &mut F,
    budget: &mut B,
    cancellation: &C,
) -> (result: Result<NegotiationPlan, NegotiationError<M::Error, F::Error>>) where
    M: NegotiationMetadataSource,
    F: NegotiationSpillFactory,
    B: NegotiationWorkBudget,
    C: CancellationProbe,

    ensures
        !limits.valid() ==> result == Err::<NegotiationPlan, NegotiationError<M::Error, F::Error>>(
            NegotiationError::Limit(NegotiationLimitKind::Configuration),
        ),
        limits.valid() && wants@.len() > limits.max_wants ==> result == Err::<
            NegotiationPlan,
            NegotiationError<M::Error, F::Error>,
        >(NegotiationError::Limit(NegotiationLimitKind::Wants)),
        limits.valid() && wants@.len() <= limits.max_wants && haves@.len() > limits.max_haves
            ==> result == Err::<NegotiationPlan, NegotiationError<M::Error, F::Error>>(
            NegotiationError::Limit(NegotiationLimitKind::Haves),
        ),
        limits.valid() && wants@.len() <= limits.max_wants && haves@.len() <= limits.max_haves
            && !request_ids_agree(wants@, haves@) ==> result == Err::<
            NegotiationPlan,
            NegotiationError<M::Error, F::Error>,
        >(NegotiationError::CorruptMetadata),
        wants@.len() * 64 > limits.max_membership_bytes || haves@.len() * 64
            > limits.max_membership_bytes ==> result is Err,
        limits.valid() && wants@.len() == 0 && haves@.len() == 0 ==> result is Ok,
        final(source).catalogue() == old(source).catalogue(),
        read_once(old(source).commit_reads(), final(source).commit_reads(), Set::empty()),
        final(source).commit_reads().len() - old(source).commit_reads().len()
            <= limits.max_visited_commits,
        old(source).tree_reads().is_prefix_of(final(source).tree_reads()),
        made_once(*old(spill_factory), *final(spill_factory)),
        all_cleared(*old(spill_factory), *final(spill_factory)),
        !limits.valid() || wants@.len() > limits.max_wants || haves@.len() > limits.max_haves
            || !request_ids_agree(wants@, haves@) ==> *final(source) == *old(source)
            && *final(spill_factory) == *old(spill_factory),
        match result {
            Ok(plan) => {
                &&& final(spill_factory).created() == old(spill_factory).created() + plan_roles(
                    plan,
                    limits,
                )
                &&& all_emptied(*old(spill_factory), *final(spill_factory))
                &&& plan_sound(plan, wants@, haves@, limits, *old(source), *final(source))
                &&& wants@.len() + haves@.len() > 0 ==> granted::<B, C>()
            },
            Err(error) => if !limits.valid() {
                error == NegotiationError::<M::Error, F::Error>::Limit(
                    NegotiationLimitKind::Configuration,
                )
            } else if wants@.len() > limits.max_wants {
                error == NegotiationError::<M::Error, F::Error>::Limit(NegotiationLimitKind::Wants)
            } else if haves@.len() > limits.max_haves {
                error == NegotiationError::<M::Error, F::Error>::Limit(NegotiationLimitKind::Haves)
            } else if !request_ids_agree(wants@, haves@) {
                error == NegotiationError::<M::Error, F::Error>::CorruptMetadata
            } else {
                answers_explain::<M, F, B, C>(
                    *old(source),
                    limits,
                    (wants@.len() + haves@.len()) as int,
                    error,
                )
            },
        },
{
    let ghost origin = *source;
    let ghost made = spill_factory.created();
    proof {
        assert(made + spill_roles(false, false, false) =~= made);
    }
    if let Err(kind) = limits.validate() {
        return Err(NegotiationError::Limit(kind));
    }
    if wants.len() > limits.max_wants {
        return Err(NegotiationError::Limit(NegotiationLimitKind::Wants));
    }
    if haves.len() > limits.max_haves {
        return Err(NegotiationError::Limit(NegotiationLimitKind::Haves));
    }
    validate_request_ids(wants, haves)?;
    let mut excluded: Membership<F::Set> = Membership::new(NegotiationSpillRole::ExcludedCommits);
    let mut visited: Membership<F::Set> = Membership::new(NegotiationSpillRole::VisitedCommits);
    let mut selected: Membership<F::Set> = Membership::new(NegotiationSpillRole::SelectedObjects);
    let planned = negotiate_with(
        source,
        wants,
        haves,
        limits,
        &mut excluded,
        &mut visited,
        &mut selected,
        spill_factory,
        budget,
        cancellation,
    );
    let ghost (a, b, c): (bool, bool, bool) = choose|a: bool, b: bool, c: bool| #[trigger]
        sets_held(excluded, visited, selected, made, spill_factory.created(), a, b, c);
    let ghost held = (excluded.spill is Some, visited.spill is Some, selected.spill is Some);
    let first = excluded.cleanup();
    let second = visited.cleanup();
    let third = selected.cleanup();
    proof {
        let all = spill_factory.created();
        assert(all == made + spill_roles(a, b, c));
        assert forall|k: int| made.len() <= k < all.len() implies cleared::<F::Set>(
            #[trigger] all[k],
        ) by {
            assert(all[k] == spill_roles(a, b, c)[k - made.len()]);
        }
    }
    let (plan, trace) = match planned {
        Ok(planned) => planned,
        Err(error) => {
            return Err(error);
        },
    };
    match first {
        Ok(done) => {
            assert(done == ());
        },
        Err(error) => {
            return Err(NegotiationError::Spill(error));
        },
    }
    match second {
        Ok(done) => {
            assert(done == ());
        },
        Err(error) => {
            return Err(NegotiationError::Spill(error));
        },
    }
    match third {
        Ok(done) => {
            assert(done == ());
        },
        Err(error) => {
            return Err(NegotiationError::Spill(error));
        },
    }
    proof {
        let all = spill_factory.created();
        assert forall|k: int| made.len() <= k < all.len() implies F::Set::clears(
            #[trigger] all[k],
            Ok(()),
        ) by {
            assert(all[k] == spill_roles(held.0, held.1, held.2)[k - made.len()]);
        }
    }
    assert(plan_follows(plan, wants@, haves@, limits, trace@));
    assert(plan_sound(plan, wants@, haves@, limits, origin, *source));
    Ok(plan)
}

/// Selecting keeps a selection free of repetition.
proof fn lemma_select_distinct(selection: Selection, oid: ObjectId, size: u64)
    requires
        selection.objects.no_duplicates(),
    ensures
        select(selection, oid, size).objects.no_duplicates(),
{
}

/// Selecting blobs keeps a selection free of repetition.
proof fn lemma_entries_distinct(
    selection: Selection,
    entries: Seq<NegotiationTreeEntry>,
    count: int,
)
    requires
        selection.objects.no_duplicates(),
    ensures
        select_entries(selection, entries, count).objects.no_duplicates(),
    decreases count,
{
    if count > 0 {
        lemma_entries_distinct(selection, entries, count - 1);
        lemma_select_distinct(
            select_entries(selection, entries, count - 1),
            entries[count - 1].oid,
            entries[count - 1].size_bytes->0,
        );
    }
}

/// Commits are selected once each.
proof fn lemma_commits_distinct(rows: Seq<NegotiationCommit>, count: int)
    requires
        count <= rows.len(),
    ensures
        select_commits(rows, count).objects.no_duplicates(),
        forall|i: int|
            0 <= i < count ==> select_commits(rows, count).objects.contains(
                (#[trigger] rows[i]).oid,
            ),
    decreases count,
{
    if count > 0 {
        lemma_commits_distinct(rows, count - 1);
        let before = select_commits(rows, count - 1);
        let row = rows[count - 1];
        lemma_select_distinct(before, row.oid, row.size_bytes);
        assert forall|i: int| 0 <= i < count implies select_commits(rows, count).objects.contains(
            (#[trigger] rows[i]).oid,
        ) by {
            lemma_select_keeps(before, row.oid, row.size_bytes, rows[i].oid);
        }
    }
}

/// Trees and blobs are selected once each, and nothing selected is lost.
proof fn lemma_trees_distinct(
    rows: Seq<NegotiationCommit>,
    trees: Seq<NegotiationTree>,
    count: int,
)
    requires
        count <= trees.len(),
    ensures
        select_trees(rows, trees, count).objects.no_duplicates(),
        forall|i: int|
            0 <= i < rows.len() ==> select_trees(rows, trees, count).objects.contains(
                (#[trigger] rows[i]).oid,
            ),
        forall|k: int, e: int|
            #![trigger trees[k].entries@[e]]
            0 <= k < count && 0 <= e < trees[k].entries@.len() && entry_role(
                trees[k].entries@[e].mode,
                trees[k].entries@[e].kind,
            ) == Some(TreeEntryRole::Blob) ==> select_trees(rows, trees, count).objects.contains(
                trees[k].entries@[e].oid,
            ),
    decreases count,
{
    if count <= 0 {
        lemma_commits_distinct(rows, rows.len() as int);
    } else {
        lemma_trees_distinct(rows, trees, count - 1);
        let before = select_trees(rows, trees, count - 1);
        let tree = trees[count - 1];
        let entries = tree.entries@;
        let chosen = select(before, tree.oid, tree.size_bytes);
        let after = select_trees(rows, trees, count);
        lemma_select_distinct(before, tree.oid, tree.size_bytes);
        lemma_entries_distinct(chosen, entries, entries.len() as int);
        assert forall|oid: ObjectId| before.objects.contains(oid) implies #[trigger]
            after.objects.contains(oid) by {
            lemma_select_keeps(before, tree.oid, tree.size_bytes, oid);
            lemma_entries_keep(chosen, entries, entries.len() as int, oid);
        }
        assert forall|k: int, e: int|
            #![trigger trees[k].entries@[e]]
            0 <= k < count && 0 <= e < trees[k].entries@.len() && entry_role(
                trees[k].entries@[e].mode,
                trees[k].entries@[e].kind,
            ) == Some(TreeEntryRole::Blob) implies after.objects.contains(
            trees[k].entries@[e].oid,
        ) by {
            if k == count - 1 {
                lemma_blob_selected(chosen, entries, entries.len() as int, e);
            }
        }
    }
}

/// A blob entry is selected.
proof fn lemma_blob_selected(
    selection: Selection,
    entries: Seq<NegotiationTreeEntry>,
    count: int,
    e: int,
)
    requires
        0 <= e < count <= entries.len(),
        entry_role(entries[e].mode, entries[e].kind) == Some(TreeEntryRole::Blob),
    ensures
        select_entries(selection, entries, count).objects.contains(entries[e].oid),
    decreases count,
{
    let before = select_entries(selection, entries, count - 1);
    let last = entries[count - 1];
    lemma_select_keeps(before, last.oid, last.size_bytes->0, entries[e].oid);
    if e < count - 1 {
        lemma_blob_selected(selection, entries, count - 1, e);
    }
}

/// Root trees stand at the front of the pending trees, and subtrees behind them.
proof fn lemma_pending_holds(
    rows: Seq<NegotiationCommit>,
    trees: Seq<NegotiationTree>,
    count: int,
)
    requires
        count <= trees.len(),
    ensures
        forall|i: int|
            0 <= i < rows.len() ==> pending_trees(rows, trees, count).contains(
                (#[trigger] rows[i]).tree,
            ),
        forall|k: int, e: int|
            #![trigger trees[k].entries@[e]]
            0 <= k < count && 0 <= e < trees[k].entries@.len() && entry_role(
                trees[k].entries@[e].mode,
                trees[k].entries@[e].kind,
            ) == Some(TreeEntryRole::Tree) ==> pending_trees(rows, trees, count).contains(
                trees[k].entries@[e].oid,
            ),
    decreases count,
{
    let pending = pending_trees(rows, trees, count);
    if count <= 0 {
        lemma_root_trees(rows, rows.len() as int);
        assert forall|i: int| 0 <= i < rows.len() implies pending.contains(
            (#[trigger] rows[i]).tree,
        ) by {
            assert(pending[i] == rows[i].tree);
        }
    } else {
        lemma_pending_holds(rows, trees, count - 1);
        let before = pending_trees(rows, trees, count - 1);
        let entries = trees[count - 1].entries@;
        let fresh = subtrees(entries, entries.len() as int);
        assert forall|oid: ObjectId| before.contains(oid) implies #[trigger] pending.contains(
            oid,
        ) by {
            let i = choose|i: int| 0 <= i < before.len() && before[i] == oid;
            assert(pending[i] == oid);
        }
        assert forall|k: int, e: int|
            #![trigger trees[k].entries@[e]]
            0 <= k < count && 0 <= e < trees[k].entries@.len() && entry_role(
                trees[k].entries@[e].mode,
                trees[k].entries@[e].kind,
            ) == Some(TreeEntryRole::Tree) implies pending.contains(trees[k].entries@[e].oid) by {
            if k == count - 1 {
                lemma_subtree_listed(entries, entries.len() as int, e);
                let i = choose|i: int| 0 <= i < fresh.len() && fresh[i] == entries[e].oid;
                assert(pending[before.len() + i] == entries[e].oid);
            }
        }
    }
}

/// Root trees stand in the order of their commits.
proof fn lemma_root_trees(rows: Seq<NegotiationCommit>, count: int)
    requires
        0 <= count <= rows.len(),
    ensures
        root_trees(rows, count).len() == count,
        forall|i: int| 0 <= i < count ==> root_trees(rows, count)[i] == (#[trigger] rows[i]).tree,
    decreases count,
{
    if count > 0 {
        lemma_root_trees(rows, count - 1);
    }
}

/// A subtree entry is listed.
proof fn lemma_subtree_listed(entries: Seq<NegotiationTreeEntry>, count: int, e: int)
    requires
        0 <= e < count <= entries.len(),
        entry_role(entries[e].mode, entries[e].kind) == Some(TreeEntryRole::Tree),
    ensures
        subtrees(entries, count).contains(entries[e].oid),
    decreases count,
{
    let before = subtrees(entries, count - 1);
    let after = subtrees(entries, count);
    if e < count - 1 {
        lemma_subtree_listed(entries, count - 1, e);
        let i = choose|i: int| 0 <= i < before.len() && before[i] == entries[e].oid;
        assert(after[i] == entries[e].oid);
    } else {
        assert(after[before.len() as int] == entries[e].oid);
    }
}

/// A plan's objects repeat nothing and are closed: they hold every selected commit, its root tree,
/// and every blob and subtree that an expanded tree names.
pub proof fn law_plan_is_closed(
    plan: NegotiationPlan,
    wants: Seq<ObjectId>,
    haves: Seq<ObjectId>,
    limits: NegotiationLimits,
    trace: NegotiationTrace,
)
    requires
        plan_follows(plan, wants, haves, limits, trace),
    ensures
        plan.objects@.no_duplicates(),
        forall|i: int|
            0 <= i < trace.want_rows.len() ==> plan.objects@.contains(
                (#[trigger] trace.want_rows[i]).oid,
            ) && plan.objects@.contains(trace.want_rows[i].tree),
        forall|k: int, e: int|
            #![trigger trace.trees[k].entries@[e]]
            0 <= k < trace.trees.len() && 0 <= e < trace.trees[k].entries@.len() && entry_role(
                trace.trees[k].entries@[e].mode,
                trace.trees[k].entries@[e].kind,
            ) != Some(TreeEntryRole::Gitlink) ==> plan.objects@.contains(
                trace.trees[k].entries@[e].oid,
            ),
{
    let rows = trace.want_rows;
    let trees = trace.trees;
    let n = trees.len() as int;
    let pending = pending_trees(rows, trees, n);
    lemma_trees_distinct(rows, trees, n);
    lemma_pending_holds(rows, trees, n);
    assert forall|oid: ObjectId| #[trigger] pending.contains(oid) implies plan.objects@.contains(
        oid,
    ) by {
        let i = choose|i: int| 0 <= i < pending.len() && pending[i] == oid;
        assert(plan.objects@.contains(pending[i]));
    }
    assert forall|i: int| 0 <= i < rows.len() implies plan.objects@.contains(
        (#[trigger] rows[i]).oid,
    ) && plan.objects@.contains(rows[i].tree) by {
        assert(pending.contains(rows[i].tree));
    }
    assert forall|k: int, e: int|
        #![trigger trees[k].entries@[e]]
        0 <= k < trees.len() && 0 <= e < trees[k].entries@.len() && entry_role(
            trees[k].entries@[e].mode,
            trees[k].entries@[e].kind,
        ) != Some(TreeEntryRole::Gitlink) implies plan.objects@.contains(
        trees[k].entries@[e].oid,
    ) by {
        let entry = trees[k].entries@[e];
        assert(tree_read(rows, trees, trace.positions, limits, k));
        assert(entry_fits(trees[k].entries@[e], trees[k].oid.spec_algo()));
        if entry_role(entry.mode, entry.kind) == Some(TreeEntryRole::Tree) {
            assert(pending.contains(entry.oid));
        }
    }
}

/// No selected commit is reachable from the haves, no commit is selected twice, and every want is
/// selected or reachable from the haves.
pub proof fn law_plan_excludes_haves(
    plan: NegotiationPlan,
    wants: Seq<ObjectId>,
    haves: Seq<ObjectId>,
    limits: NegotiationLimits,
    trace: NegotiationTrace,
)
    requires
        plan_follows(plan, wants, haves, limits, trace),
    ensures
        plan.commits@.no_duplicates(),
        forall|i: int|
            0 <= i < plan.commits@.len() ==> !has_row(trace.have_rows, #[trigger] plan.commits@[i]),
        forall|i: int|
            0 <= i < haves.len() ==> has_row(trace.have_rows, #[trigger] haves[i]),
        forall|i: int|
            0 <= i < wants.len() ==> has_row(trace.have_rows, #[trigger] wants[i])
                || plan.commits@.contains(wants[i]),
{
    let rows = trace.want_rows;
    let excluded = row_set(trace.have_rows);
    assert forall|i: int| 0 <= i < plan.commits@.len() implies !has_row(
        trace.have_rows,
        #[trigger] plan.commits@[i],
    ) by {
        assert(visited_row(
            first_occurrences(wants),
            excluded,
            rows,
            trace.want_items,
            limits,
            i,
        ));
        assert(plan.commits@[i] == rows[i].oid);
    }
    assert forall|i: int, j: int|
        0 <= i < plan.commits@.len() && 0 <= j < plan.commits@.len() && i
            != j implies plan.commits@[i] != plan.commits@[j] by {
        assert(plan.commits@[i] == rows[i].oid);
        assert(plan.commits@[j] == rows[j].oid);
        if i < j {
            assert(rows[i].oid != rows[j].oid);
        } else {
            assert(rows[j].oid != rows[i].oid);
        }
    }
    law_first_occurrences(haves);
    law_first_occurrences(wants);
    assert forall|i: int| 0 <= i < haves.len() implies has_row(
        trace.have_rows,
        #[trigger] haves[i],
    ) by {
        assert(haves.to_set().contains(haves[i]));
        let roots = first_occurrences(haves);
        assert(roots.to_set().contains(haves[i]));
        let r = choose|r: int| 0 <= r < roots.len() && roots[r] == haves[i];
        assert(has_row(trace.have_rows, roots[r]));
    }
    assert forall|i: int| 0 <= i < wants.len() implies has_row(
        trace.have_rows,
        #[trigger] wants[i],
    ) || plan.commits@.contains(wants[i]) by {
        assert(wants.to_set().contains(wants[i]));
        let roots = first_occurrences(wants);
        assert(roots.to_set().contains(wants[i]));
        let r = choose|r: int| 0 <= r < roots.len() && roots[r] == wants[i];
        assert(excluded.contains(roots[r]) || has_row(rows, roots[r]));
        if has_row(rows, roots[r]) {
            let k = choose|k: int| 0 <= k < rows.len() && (#[trigger] rows[k]).oid == roots[r];
            assert(plan.commits@[k] == wants[i]);
        }
    }
}

} // verus!
