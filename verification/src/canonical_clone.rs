//! Canonical full-clone identity, manifest and singleflight state.
//!
//! A full clone without receiver state has one canonical pack per repository generation. Its
//! identity is the digest of a length-prefixed encoding, and one fenced builder at a time may
//! publish it.

use crate::admission::{blank, lemma_trimmed, text_bytes, trim_text};
use crate::bytes::{
    be_bytes, lemma_be_bytes_len, lemma_be_decode_encode, lemma_pow256_values, push_be_u32,
    push_be_u64,
};
use crate::clock::Timestamp;
use crate::digest::{hashed_id, StreamHasher};
use crate::object::{HashAlgo, ObjectId, RepositoryId, TenantId};
use crate::oid_map::OidMap;
use vstd::prelude::*;
use vstd::utf8::encode_utf8;

verus! {

/// Maximum distinct wants in one canonical clone identity.
pub const MAX_CANONICAL_CLONE_WANTS: usize = 65_536;

/// Capability of an upload-pack request.
#[derive(Debug)]
pub enum UploadPackCapability {
    /// Basic acknowledgement.
    MultiAck,
    /// Detailed acknowledgement.
    MultiAckDetailed,
    /// Thin packs are accepted.
    ThinPack,
    /// Small sideband packets.
    SideBand,
    /// Large sideband packets.
    SideBand64k,
    /// Offset deltas are accepted.
    OfsDelta,
    /// Annotated tags are included.
    IncludeTag,
    /// Client name.
    Agent(String),
    /// Object format.
    ObjectFormat(HashAlgo),
    /// Anything else.
    Other(String),
}

/// Upload-pack request.
#[derive(Debug)]
pub struct UploadPackRequest {
    /// Wanted objects.
    pub wants: Vec<ObjectId>,
    /// Objects that the receiver has.
    pub haves: Vec<ObjectId>,
    /// Capabilities.
    pub capabilities: Vec<UploadPackCapability>,
}

/// Shape, manifest or singleflight failure.
#[derive(Clone, Copy, Debug, PartialEq, Eq, Structural)]
pub enum CanonicalCloneError {
    /// The repository incarnation is zero.
    InvalidGeneration,
    /// There are no wants.
    EmptyWants,
    /// A want is the null object.
    NullWant,
    /// There are too many wants.
    TooManyWants,
    /// The receiver has objects.
    HavesUnsupported,
    /// A capability is unknown.
    UnsupportedCapability,
    /// Object formats differ.
    ObjectFormatMismatch,
    /// The object format is declared twice.
    AmbiguousObjectFormat,
    /// A shape is not in canonical form.
    InvalidShape,
    /// A field is too long.
    Length,
    /// A bounded buffer could not be reserved.
    Allocation,
    /// A locator is blank or too long.
    InvalidLocator,
    /// A manifest is inconsistent.
    InvalidManifest,
    /// A token is blank or too long.
    InvalidToken,
    /// A fence or a lease is invalid.
    InvalidLease,
    /// Observed time moved backwards.
    NonMonotonicTime,
    /// No larger fence exists.
    FencingOverflow,
}

/// Tenant and repository of a canonical clone.
#[derive(Debug)]
pub struct CanonicalCloneScope {
    /// Tenant.
    pub tenant: TenantId,
    /// Repository.
    pub repository: RepositoryId,
}

impl CanonicalCloneScope {
    /// Both name the same tenant and repository.
    pub open spec fn same_as(self, other: CanonicalCloneScope) -> bool {
        self.tenant@ == other.tenant@ && self.repository@ == other.repository@
    }
}

/// Repository incarnation and generations bound to a canonical pack.
#[derive(Clone, Copy, Debug, PartialEq, Eq, Structural, Hash)]
pub struct CanonicalCloneGeneration {
    /// Nonzero incarnation, changed when a repository is deleted and created again.
    pub incarnation: u64,
    /// Durable repository generation.
    pub repository: u64,
    /// Visible ref generation.
    pub refs: u64,
}

impl CanonicalCloneGeneration {
    /// Check that the incarnation is not zero.
    pub fn validate(self) -> (result: Result<Self, CanonicalCloneError>)
        ensures
            result == if self.incarnation == 0 {
                Err::<Self, CanonicalCloneError>(CanonicalCloneError::InvalidGeneration)
            } else {
                Ok(self)
            },
    {
        if self.incarnation == 0 {
            return Err(CanonicalCloneError::InvalidGeneration);
        }
        Ok(self)
    }
}

/// Receiver state of canonical packs.
#[derive(Clone, Copy, Debug, PartialEq, Eq, Structural, Hash)]
pub enum CanonicalCloneReceiver {
    /// The receiver has nothing.
    NoHaves,
}

/// Shallow boundary of canonical packs.
#[derive(Clone, Copy, Debug, PartialEq, Eq, Structural, Hash)]
pub enum CanonicalCloneShallow {
    /// Complete history.
    Complete,
}

/// History deepening of canonical packs.
#[derive(Clone, Copy, Debug, PartialEq, Eq, Structural, Hash)]
pub enum CanonicalCloneDeepen {
    /// No depth or time boundary.
    Unbounded,
}

/// Object filter of canonical packs.
#[derive(Clone, Copy, Debug, PartialEq, Eq, Structural, Hash)]
pub enum CanonicalCloneFilter {
    /// No filter.
    Unfiltered,
}

/// Representation choices that change canonical bytes.
#[derive(Clone, Copy, Debug, PartialEq, Eq, Structural, Hash)]
pub struct CanonicalCloneRepresentation {
    /// Allow offset deltas.
    pub ofs_delta: bool,
    /// Allow a thin pack.
    pub thin_pack: bool,
}

impl Default for CanonicalCloneRepresentation {
    fn default() -> (representation: Self)
        ensures
            !representation.ofs_delta,
            !representation.thin_pack,
    {
        CanonicalCloneRepresentation { ofs_delta: false, thin_pack: false }
    }
}

/// Logical identity of a canonical clone pack.
#[derive(Debug)]
pub struct CanonicalCloneShape {
    /// Tenant and repository.
    pub scope: CanonicalCloneScope,
    /// Generation captured by the pack.
    pub generation: CanonicalCloneGeneration,
    /// Wanted objects, ascending without duplicates.
    pub wants: Vec<ObjectId>,
    /// Object format.
    pub hash_algo: HashAlgo,
    /// Whether annotated tags are included.
    pub include_tag: bool,
    /// Receiver state.
    pub receiver: CanonicalCloneReceiver,
    /// Shallow boundary.
    pub shallow: CanonicalCloneShallow,
    /// History deepening.
    pub deepen: CanonicalCloneDeepen,
    /// Object filter.
    pub filter: CanonicalCloneFilter,
    /// Representation choices.
    pub representation: CanonicalCloneRepresentation,
}

/// Identities ascend strictly.
pub open spec fn ascending(wants: Seq<ObjectId>) -> bool {
    forall|i: int, j: int|
        #![trigger wants[i], wants[j]]
        0 <= i < j < wants.len() ==> wants[i].spec_before(wants[j])
}

/// The capability is `OfsDelta`.
pub open spec fn asks_ofs_delta(capabilities: Seq<UploadPackCapability>) -> bool {
    exists|i: int| 0 <= i < capabilities.len() && (#[trigger] capabilities[i]) is OfsDelta
}

/// Some capability is `IncludeTag`.
pub open spec fn asks_tags(capabilities: Seq<UploadPackCapability>) -> bool {
    exists|i: int| 0 <= i < capabilities.len() && (#[trigger] capabilities[i]) is IncludeTag
}

/// The first fault of the capabilities from `at` on, once an object format was or was not seen.
pub open spec fn capability_fault(
    capabilities: Seq<UploadPackCapability>,
    at: int,
    format_seen: bool,
    algo: HashAlgo,
) -> Option<CanonicalCloneError>
    decreases capabilities.len() - at,
{
    if at < 0 || at >= capabilities.len() {
        None
    } else {
        match capabilities[at] {
            UploadPackCapability::ObjectFormat(format) => if format_seen {
                Some(CanonicalCloneError::AmbiguousObjectFormat)
            } else if format != algo {
                Some(CanonicalCloneError::ObjectFormatMismatch)
            } else {
                capability_fault(capabilities, at + 1, true, algo)
            },
            UploadPackCapability::Other(_) => Some(CanonicalCloneError::UnsupportedCapability),
            _ => capability_fault(capabilities, at + 1, format_seen, algo),
        }
    }
}

/// Why a request has no canonical shape.
pub open spec fn request_fault(
    request: UploadPackRequest,
    generation: CanonicalCloneGeneration,
    algo: HashAlgo,
) -> Option<CanonicalCloneError> {
    if generation.incarnation == 0 {
        Some(CanonicalCloneError::InvalidGeneration)
    } else if request.haves@.len() > 0 {
        Some(CanonicalCloneError::HavesUnsupported)
    } else if request.wants@.len() == 0 {
        Some(CanonicalCloneError::EmptyWants)
    } else if request.wants@.len() > MAX_CANONICAL_CLONE_WANTS {
        Some(CanonicalCloneError::TooManyWants)
    } else if exists|i: int|
        0 <= i < request.wants@.len() && (#[trigger] request.wants@[i]).spec_is_zero() {
        Some(CanonicalCloneError::NullWant)
    } else if exists|i: int|
        0 <= i < request.wants@.len() && (#[trigger] request.wants@[i]).spec_algo() != algo {
        Some(CanonicalCloneError::ObjectFormatMismatch)
    } else {
        capability_fault(request.capabilities@, 0, false, algo)
    }
}

/// Return whether some identity is null.
fn any_zero(wants: &Vec<ObjectId>) -> (found: bool)
    ensures
        found == exists|i: int| 0 <= i < wants@.len() && (#[trigger] wants@[i]).spec_is_zero(),
{
    let mut at: usize = 0;
    while at < wants.len()
        invariant
            at <= wants@.len(),
            forall|i: int| 0 <= i < at ==> !(#[trigger] wants@[i]).spec_is_zero(),
        decreases wants.len() - at,
    {
        if wants[at].is_zero() {
            assert(wants@[at as int].spec_is_zero());
            return true;
        }
        at = at + 1;
    }
    false
}

/// Return whether some identity belongs to another algorithm.
fn any_other_algo(wants: &Vec<ObjectId>, algo: HashAlgo) -> (found: bool)
    ensures
        found == exists|i: int| 0 <= i < wants@.len() && (#[trigger] wants@[i]).spec_algo() != algo,
{
    let mut at: usize = 0;
    while at < wants.len()
        invariant
            at <= wants@.len(),
            forall|i: int| 0 <= i < at ==> (#[trigger] wants@[i]).spec_algo() == algo,
        decreases wants.len() - at,
    {
        if wants[at].algo() != algo {
            assert(wants@[at as int].spec_algo() != algo);
            return true;
        }
        at = at + 1;
    }
    false
}

/// Sort identities and drop duplicates.
fn normalize_wants(wants: &Vec<ObjectId>) -> (sorted: Vec<ObjectId>)
    ensures
        ascending(sorted@),
        sorted@.to_set() == wants@.to_set(),
        sorted@.len() <= wants@.len(),
        wants@.len() > 0 ==> sorted@.len() > 0,
{
    let mut seen = OidMap::new();
    let mut at: usize = 0;
    assert(wants@.take(0).to_set() =~= Set::<ObjectId>::empty());
    assert(seen@.dom() =~= Set::<ObjectId>::empty());
    while at < wants.len()
        invariant
            at <= wants@.len(),
            seen@.dom() == wants@.take(at as int).to_set(),
            seen@.dom().finite(),
            seen@.dom().len() <= at,
        decreases wants.len() - at,
    {
        let ghost before = seen@.dom();
        let _stored = seen.insert_new(wants[at], 0);
        proof {
            let front = wants@.take(at as int);
            let more = wants@.take(at + 1);
            assert(more =~= front.push(wants@[at as int]));
            assert(seen@.dom() =~= before.insert(wants@[at as int]));
            assert(more.to_set() =~= front.to_set().insert(wants@[at as int])) by {
                assert forall|x: ObjectId| more.to_set().contains(x) <==> front.to_set().insert(
                    wants@[at as int],
                ).contains(x) by {
                    if front.contains(x) {
                        let j = choose|j: int| 0 <= j < front.len() && front[j] == x;
                        assert(more[j] == x);
                    }
                    if x == wants@[at as int] {
                        assert(more[at as int] == x);
                    }
                    if more.contains(x) && x != wants@[at as int] {
                        let j = choose|j: int| 0 <= j < more.len() && more[j] == x;
                        assert(front[j] == x);
                    }
                }
            }
        }
        at = at + 1;
    }
    let sorted = seen.keys();
    proof {
        assert(wants@.take(at as int) =~= wants@);
        sorted@.unique_seq_to_set();
        if wants@.len() > 0 {
            assert(wants@.contains(wants@[0]));
            assert(sorted@.to_set().contains(wants@[0]));
        }
    }
    sorted
}

impl CanonicalCloneShape {
    /// The shape that a request normalizes to.
    pub open spec fn normalizes(
        self,
        request: UploadPackRequest,
        scope: CanonicalCloneScope,
        generation: CanonicalCloneGeneration,
        algo: HashAlgo,
    ) -> bool {
        &&& self.scope == scope
        &&& self.generation == generation
        &&& ascending(self.wants@)
        &&& self.wants@.to_set() == request.wants@.to_set()
        &&& self.hash_algo == algo
        &&& self.include_tag == asks_tags(request.capabilities@)
        &&& self.representation.ofs_delta == asks_ofs_delta(request.capabilities@)
        &&& !self.representation.thin_pack
    }

    /// Build and normalize a canonical shape.
    ///
    /// Sideband and agent capabilities do not change raw PACK bytes and are left out. A full clone
    /// without haves is self-contained whether or not thin packs are accepted. Unknown capabilities
    /// are refused.
    pub fn from_request(
        request: &UploadPackRequest,
        scope: CanonicalCloneScope,
        generation: CanonicalCloneGeneration,
        hash_algo: HashAlgo,
    ) -> (result: Result<Self, CanonicalCloneError>)
        ensures
            match request_fault(*request, generation, hash_algo) {
                Some(fault) => result == Err::<Self, CanonicalCloneError>(fault),
                None => result is Ok && result->Ok_0.normalizes(
                    *request,
                    scope,
                    generation,
                    hash_algo,
                ),
            },
    {
        if let Err(error) = generation.validate() {
            return Err(error);
        }
        if request.haves.len() != 0 {
            return Err(CanonicalCloneError::HavesUnsupported);
        }
        if request.wants.len() == 0 {
            return Err(CanonicalCloneError::EmptyWants);
        }
        if request.wants.len() > MAX_CANONICAL_CLONE_WANTS {
            return Err(CanonicalCloneError::TooManyWants);
        }
        if any_zero(&request.wants) {
            return Err(CanonicalCloneError::NullWant);
        }
        if any_other_algo(&request.wants, hash_algo) {
            return Err(CanonicalCloneError::ObjectFormatMismatch);
        }
        let ghost capabilities = request.capabilities@;
        let mut include_tag: bool = false;
        let mut representation = CanonicalCloneRepresentation::default();
        let mut format_seen: bool = false;
        let mut at: usize = 0;
        while at < request.capabilities.len()
            invariant
                at <= capabilities.len(),
                capabilities == request.capabilities@,
                capability_fault(capabilities, 0, false, hash_algo) == capability_fault(
                    capabilities,
                    at as int,
                    format_seen,
                    hash_algo,
                ),
                request_fault(*request, generation, hash_algo) == capability_fault(
                    capabilities,
                    0,
                    false,
                    hash_algo,
                ),
                include_tag == exists|i: int|
                    0 <= i < at && (#[trigger] capabilities[i]) is IncludeTag,
                representation.ofs_delta == exists|i: int|
                    0 <= i < at && (#[trigger] capabilities[i]) is OfsDelta,
                !representation.thin_pack,
            decreases request.capabilities.len() - at,
        {
            match &request.capabilities[at] {
                UploadPackCapability::IncludeTag => {
                    assert(capabilities[at as int] is IncludeTag);
                    include_tag = true;
                },
                UploadPackCapability::OfsDelta => {
                    assert(capabilities[at as int] is OfsDelta);
                    representation.ofs_delta = true;
                },
                UploadPackCapability::ObjectFormat(format) => {
                    if format_seen {
                        return Err(CanonicalCloneError::AmbiguousObjectFormat);
                    }
                    format_seen = true;
                    if *format != hash_algo {
                        return Err(CanonicalCloneError::ObjectFormatMismatch);
                    }
                },
                UploadPackCapability::Other(_) => {
                    return Err(CanonicalCloneError::UnsupportedCapability);
                },
                _ => {},
            }
            at = at + 1;
        }
        let wants = normalize_wants(&request.wants);
        Ok(
            CanonicalCloneShape {
                scope,
                generation,
                wants,
                hash_algo,
                include_tag,
                receiver: CanonicalCloneReceiver::NoHaves,
                shallow: CanonicalCloneShallow::Complete,
                deepen: CanonicalCloneDeepen::Unbounded,
                filter: CanonicalCloneFilter::Unfiltered,
                representation,
            },
        )
    }
}

/// The version mark of the encoding.
pub open spec fn version_mark() -> Seq<u8> {
    seq![
        103u8, 114u8, 105u8, 116u8, 45u8, 99u8, 97u8, 110u8, 111u8, 110u8, 105u8, 99u8, 97u8, 108u8,
        45u8, 99u8, 108u8, 111u8, 110u8, 101u8, 45u8, 118u8, 49u8,
    ]
}

/// The number that stands for an object format.
pub open spec fn format_number(algo: HashAlgo) -> u8 {
    match algo {
        HashAlgo::Sha1 => 1,
        HashAlgo::Sha256 => 2,
    }
}

/// Bytes behind their length.
pub open spec fn field(bytes: Seq<u8>) -> Seq<u8> {
    be_bytes(bytes.len() as int, 4) + bytes
}

/// One field for each identity.
pub open spec fn want_fields(wants: Seq<ObjectId>) -> Seq<u8>
    decreases wants.len(),
{
    if wants.len() == 0 {
        Seq::empty()
    } else {
        want_fields(wants.drop_last()) + field(wants.last()@)
    }
}

/// One where the choice is made.
pub open spec fn choice(made: bool) -> u8 {
    if made {
        1
    } else {
        0
    }
}

/// The choices of a shape.
pub open spec fn choices(shape: CanonicalCloneShape) -> Seq<u8> {
    seq![
        format_number(shape.hash_algo),
        choice(shape.include_tag),
        0u8,
        0u8,
        0u8,
        0u8,
        choice(shape.representation.ofs_delta),
        0u8,
    ]
}

/// The generation's three numbers.
pub open spec fn generation_bytes(generation: CanonicalCloneGeneration) -> Seq<u8> {
    be_bytes(generation.incarnation as int, 8) + be_bytes(generation.repository as int, 8)
        + be_bytes(generation.refs as int, 8)
}

/// What is hashed into the key of a shape.
pub open spec fn shape_encoding(shape: CanonicalCloneShape) -> Seq<u8> {
    field(version_mark()) + (field(encode_utf8(shape.scope.tenant@)) + (field(
        encode_utf8(shape.scope.repository@),
    ) + content_encoding(shape)))
}

/// What is hashed behind the scope.
pub open spec fn content_encoding(shape: CanonicalCloneShape) -> Seq<u8> {
    generation_bytes(shape.generation) + (choices(shape) + (be_bytes(shape.wants@.len() as int, 4)
        + want_fields(shape.wants@)))
}

/// Why a shape has no key.
pub open spec fn key_fault(shape: CanonicalCloneShape) -> Option<CanonicalCloneError> {
    if shape.generation.incarnation == 0 {
        Some(CanonicalCloneError::InvalidGeneration)
    } else if shape.wants@.len() == 0 || shape.wants@.len() > MAX_CANONICAL_CLONE_WANTS
        || !ascending(shape.wants@) || !of_algo(shape.wants@, shape.hash_algo)
        || shape.representation.thin_pack {
        Some(CanonicalCloneError::InvalidShape)
    } else if encode_utf8(shape.scope.tenant@).len() > u32::MAX || encode_utf8(
        shape.scope.repository@,
    ).len() > u32::MAX {
        Some(CanonicalCloneError::Length)
    } else {
        None
    }
}

/// Every identity belongs to the algorithm.
pub open spec fn of_algo(wants: Seq<ObjectId>, algo: HashAlgo) -> bool {
    forall|i: int| 0 <= i < wants.len() ==> (#[trigger] wants[i]).spec_algo() == algo
}

/// Versioned SHA-256 canonical clone key.
#[derive(Clone, Copy, Debug, PartialEq, Eq, Structural, Hash)]
pub struct CanonicalCloneKey {
    digest: ObjectId,
}

impl CanonicalCloneKey {
    /// The digest.
    pub closed spec fn spec_digest(self) -> ObjectId {
        self.digest
    }

    /// Return the 32 raw key bytes.
    pub fn as_bytes(&self) -> (bytes: Vec<u8>)
        ensures
            bytes@ == self.spec_digest()@,
    {
        self.digest.to_bytes()
    }
}

/// Check that identities ascend strictly.
fn check_ascending(wants: &Vec<ObjectId>) -> (sorted: bool)
    ensures
        sorted == ascending(wants@),
{
    let mut at: usize = 1;
    while at < wants.len()
        invariant
            1 <= at,
            at <= wants@.len() || wants@.len() == 0,
            forall|i: int, j: int|
                #![trigger wants@[i], wants@[j]]
                0 <= i < j < at && j < wants@.len() ==> wants@[i].spec_before(wants@[j]),
        decreases wants.len() - at,
    {
        if !wants[at - 1].before(wants[at]) {
            assert(!wants@[at - 1].spec_before(wants@[at as int]));
            return false;
        }
        at = at + 1;
    }
    true
}

/// Collect a field.
fn hash_field(output: &mut StreamHasher, bytes: &[u8]) -> (result: Result<
    (),
    CanonicalCloneError,
>)
    ensures
        result == if bytes@.len() > u32::MAX {
            Err::<(), CanonicalCloneError>(CanonicalCloneError::Length)
        } else {
            Ok(())
        },
        final(output).spec_algo() == old(output).spec_algo(),
        result is Ok ==> final(output).absorbed() == old(output).absorbed() + field(bytes@),
{
    if bytes.len() as u64 > u32::MAX as u64 {
        return Err(CanonicalCloneError::Length);
    }
    let ghost before = output.absorbed();
    let mut length: Vec<u8> = Vec::new();
    push_be_u32(&mut length, bytes.len() as u32);
    output.update(length.as_slice());
    output.update(bytes);
    assert(length@ =~= be_bytes(bytes@.len() as int, 4));
    assert(output.absorbed() =~= before + field(bytes@));
    Ok(())
}

impl CanonicalCloneShape {
    /// Compute the deterministic SHA-256 identity of this shape.
    pub fn key(&self) -> (result: Result<CanonicalCloneKey, CanonicalCloneError>)
        ensures
            match key_fault(*self) {
                Some(fault) => result == Err::<CanonicalCloneKey, CanonicalCloneError>(fault),
                None => result is Ok && result->Ok_0.spec_digest() == hashed_id(
                    HashAlgo::Sha256,
                    shape_encoding(*self),
                ),
            },
    {
        if let Err(error) = self.generation.validate() {
            return Err(error);
        }
        if self.wants.len() == 0 || self.wants.len() > MAX_CANONICAL_CLONE_WANTS {
            return Err(CanonicalCloneError::InvalidShape);
        }
        if !check_ascending(&self.wants) || any_other_algo(&self.wants, self.hash_algo) {
            return Err(CanonicalCloneError::InvalidShape);
        }
        if self.representation.thin_pack {
            return Err(CanonicalCloneError::InvalidShape);
        }
        let mut canonical = StreamHasher::new(HashAlgo::Sha256);
        let version: Vec<u8> = vec![
            103u8,
            114u8,
            105u8,
            116u8,
            45u8,
            99u8,
            97u8,
            110u8,
            111u8,
            110u8,
            105u8,
            99u8,
            97u8,
            108u8,
            45u8,
            99u8,
            108u8,
            111u8,
            110u8,
            101u8,
            45u8,
            118u8,
            49u8,
        ];
        assert(version@ =~= version_mark());
        hash_field(&mut canonical, version.as_slice())?;
        hash_field(&mut canonical, self.scope.tenant.value.as_str().as_bytes())?;
        hash_field(&mut canonical, self.scope.repository.value.as_str().as_bytes())?;
        let mut middle: Vec<u8> = Vec::new();
        push_be_u64(&mut middle, self.generation.incarnation);
        push_be_u64(&mut middle, self.generation.repository);
        push_be_u64(&mut middle, self.generation.refs);
        middle.push(
            match self.hash_algo {
                HashAlgo::Sha1 => 1,
                HashAlgo::Sha256 => 2,
            },
        );
        middle.push(
            if self.include_tag {
                1
            } else {
                0
            },
        );
        middle.push(0);
        middle.push(0);
        middle.push(0);
        middle.push(0);
        middle.push(
            if self.representation.ofs_delta {
                1
            } else {
                0
            },
        );
        middle.push(0);
        push_be_u32(&mut middle, self.wants.len() as u32);
        canonical.update(middle.as_slice());
        let ghost front = canonical.absorbed();
        let mut at: usize = 0;
        assert(want_fields(self.wants@.take(0)) =~= Seq::<u8>::empty());
        assert(front + want_fields(self.wants@.take(0)) =~= front);
        while at < self.wants.len()
            invariant
                at <= self.wants@.len(),
                canonical.spec_algo() == HashAlgo::Sha256,
                canonical.absorbed() == front + want_fields(self.wants@.take(at as int)),
            decreases self.wants.len() - at,
        {
            let bytes: Vec<u8> = self.wants[at].to_bytes();
            let ghost before = want_fields(self.wants@.take(at as int));
            proof {
                crate::object::lemma_id_len(self.wants@[at as int]);
                assert(self.wants@.take(at + 1).drop_last() =~= self.wants@.take(at as int));
            }
            hash_field(&mut canonical, bytes.as_slice())?;
            assert((front + before) + field(bytes@) =~= front + (before + field(bytes@)));
            at = at + 1;
        }
        proof {
            assert(self.wants@.take(at as int) =~= self.wants@);
            assert(middle@ =~= generation_bytes(self.generation) + choices(*self) + be_bytes(
                self.wants@.len() as int,
                4,
            ));
            assert(middle@ + want_fields(self.wants@) =~= content_encoding(*self));
            assert(canonical.absorbed() =~= shape_encoding(*self));
        }
        Ok(CanonicalCloneKey { digest: canonical.finish() })
    }
}

/// A number behind which something follows is read back.
proof fn lemma_number_split(a: int, b: int, width: nat, r: Seq<u8>, s: Seq<u8>)
    requires
        0 <= a < crate::bytes::pow256(width),
        0 <= b < crate::bytes::pow256(width),
        be_bytes(a, width) + r == be_bytes(b, width) + s,
    ensures
        a == b,
        r == s,
{
    let x = be_bytes(a, width);
    let y = be_bytes(b, width);
    lemma_be_bytes_len(a, width);
    lemma_be_bytes_len(b, width);
    lemma_split(x, y, r, s);
    lemma_be_decode_encode(a, width);
    lemma_be_decode_encode(b, width);
}

/// Parts of equal length are equal.
proof fn lemma_split(x: Seq<u8>, y: Seq<u8>, r: Seq<u8>, s: Seq<u8>)
    requires
        x.len() == y.len(),
        x + r == y + s,
    ensures
        x == y,
        r == s,
{
    let all = x + r;
    assert(all.take(x.len() as int) =~= x);
    assert((y + s).take(y.len() as int) =~= y);
    assert(all.skip(x.len() as int) =~= r);
    assert((y + s).skip(y.len() as int) =~= s);
}

/// A field behind which something follows is read back.
proof fn lemma_field_split(x: Seq<u8>, y: Seq<u8>, r: Seq<u8>, s: Seq<u8>)
    requires
        x.len() <= u32::MAX,
        y.len() <= u32::MAX,
        field(x) + r == field(y) + s,
    ensures
        x == y,
        r == s,
{
    lemma_pow256_values();
    assert(field(x) + r =~= be_bytes(x.len() as int, 4) + (x + r));
    assert(field(y) + s =~= be_bytes(y.len() as int, 4) + (y + s));
    lemma_number_split(x.len() as int, y.len() as int, 4, x + r, y + s);
    lemma_split(x, y, r, s);
}

/// Fields of equally many identities of one algorithm are read back.
proof fn lemma_wants_split(a: Seq<ObjectId>, b: Seq<ObjectId>, algo: HashAlgo)
    requires
        a.len() == b.len(),
        of_algo(a, algo),
        of_algo(b, algo),
        want_fields(a) == want_fields(b),
    ensures
        a == b,
    decreases a.len(),
{
    if a.len() == 0 {
        assert(a =~= b);
    } else {
        let x = field(a.last()@);
        let y = field(b.last()@);
        let r = want_fields(a.drop_last());
        let s = want_fields(b.drop_last());
        crate::object::lemma_id_len(a.last());
        crate::object::lemma_id_len(b.last());
        lemma_be_bytes_len(a.last()@.len() as int, 4);
        lemma_be_bytes_len(b.last()@.len() as int, 4);
        assert(x.len() == y.len());
        assert(r.len() == s.len()) by {
            assert((r + x).len() == (s + y).len());
        }
        lemma_split(r, s, x, y);
        assert(field(a.last()@) + Seq::<u8>::empty() =~= field(b.last()@) + Seq::<u8>::empty());
        lemma_field_split(a.last()@, b.last()@, Seq::empty(), Seq::empty());
        crate::object::lemma_id_injective(a.last(), b.last());
        assert(of_algo(a.drop_last(), algo)) by {
            assert forall|i: int| 0 <= i < a.drop_last().len() implies (
            #[trigger] a.drop_last()[i]).spec_algo() == algo by {
                assert(a.drop_last()[i] == a[i]);
            }
        }
        assert(of_algo(b.drop_last(), algo)) by {
            assert forall|i: int| 0 <= i < b.drop_last().len() implies (
            #[trigger] b.drop_last()[i]).spec_algo() == algo by {
                assert(b.drop_last()[i] == b[i]);
            }
        }
        lemma_wants_split(a.drop_last(), b.drop_last(), algo);
        assert(a =~= a.drop_last().push(a.last()));
        assert(b =~= b.drop_last().push(b.last()));
    }
}

/// Two shapes stand for the same pack.
pub open spec fn same_identity(a: CanonicalCloneShape, b: CanonicalCloneShape) -> bool {
    &&& a.scope.same_as(b.scope)
    &&& a.generation == b.generation
    &&& a.wants@ == b.wants@
    &&& a.hash_algo == b.hash_algo
    &&& a.include_tag == b.include_tag
    &&& a.representation == b.representation
}

/// What is hashed into a key determines the shape: no two different shapes share an encoding.
pub proof fn law_encoding_is_injective(a: CanonicalCloneShape, b: CanonicalCloneShape)
    requires
        key_fault(a) is None,
        key_fault(b) is None,
    ensures
        shape_encoding(a) == shape_encoding(b) <==> same_identity(a, b),
{
    if shape_encoding(a) == shape_encoding(b) {
        let version = version_mark();
        let ta = encode_utf8(a.scope.tenant@);
        let tb = encode_utf8(b.scope.tenant@);
        let ra = encode_utf8(a.scope.repository@);
        let rb = encode_utf8(b.scope.repository@);
        let ca = content_encoding(a);
        let cb = content_encoding(b);
        lemma_field_split(
            version,
            version,
            field(ta) + (field(ra) + ca),
            field(tb) + (field(rb) + cb),
        );
        lemma_field_split(ta, tb, field(ra) + ca, field(rb) + cb);
        lemma_field_split(ra, rb, ca, cb);
        vstd::utf8::encode_utf8_decode_utf8(a.scope.tenant@);
        vstd::utf8::encode_utf8_decode_utf8(b.scope.tenant@);
        vstd::utf8::encode_utf8_decode_utf8(a.scope.repository@);
        vstd::utf8::encode_utf8_decode_utf8(b.scope.repository@);
        lemma_content_split(a, b);
    }
}

/// The three numbers of a generation are read back.
proof fn lemma_generation_split(
    a: CanonicalCloneGeneration,
    b: CanonicalCloneGeneration,
    r: Seq<u8>,
    s: Seq<u8>,
)
    requires
        generation_bytes(a) + r == generation_bytes(b) + s,
    ensures
        a == b,
        r == s,
{
    let a1 = be_bytes(a.incarnation as int, 8);
    let a2 = be_bytes(a.repository as int, 8);
    let a3 = be_bytes(a.refs as int, 8);
    let b1 = be_bytes(b.incarnation as int, 8);
    let b2 = be_bytes(b.repository as int, 8);
    let b3 = be_bytes(b.refs as int, 8);
    lemma_pow256_values();
    assert(generation_bytes(a) + r =~= a1 + (a2 + (a3 + r)));
    assert(generation_bytes(b) + s =~= b1 + (b2 + (b3 + s)));
    lemma_number_split(
        a.incarnation as int,
        b.incarnation as int,
        8,
        a2 + (a3 + r),
        b2 + (b3 + s),
    );
    lemma_number_split(a.repository as int, b.repository as int, 8, a3 + r, b3 + s);
    lemma_number_split(a.refs as int, b.refs as int, 8, r, s);
}

/// What follows the scope is read back.
proof fn lemma_content_split(a: CanonicalCloneShape, b: CanonicalCloneShape)
    requires
        key_fault(a) is None,
        key_fault(b) is None,
        content_encoding(a) == content_encoding(b),
    ensures
        a.generation == b.generation,
        a.wants@ == b.wants@,
        a.hash_algo == b.hash_algo,
        a.include_tag == b.include_tag,
        a.representation == b.representation,
{
    let na = be_bytes(a.wants@.len() as int, 4) + want_fields(a.wants@);
    let nb = be_bytes(b.wants@.len() as int, 4) + want_fields(b.wants@);
    lemma_generation_split(a.generation, b.generation, choices(a) + na, choices(b) + nb);
    lemma_split(choices(a), choices(b), na, nb);
    assert(choices(a)[0] == choices(b)[0]);
    assert(choices(a)[1] == choices(b)[1]);
    assert(choices(a)[6] == choices(b)[6]);
    lemma_pow256_values();
    lemma_number_split(
        a.wants@.len() as int,
        b.wants@.len() as int,
        4,
        want_fields(a.wants@),
        want_fields(b.wants@),
    );
    lemma_wants_split(a.wants@, b.wants@, a.hash_algo);
}

/// Equal requests for one repository generation share a key, whatever the order or repetition of
/// their wants.
pub proof fn law_equal_requests_share_a_key(
    a: CanonicalCloneShape,
    b: CanonicalCloneShape,
    first: UploadPackRequest,
    second: UploadPackRequest,
    scope: CanonicalCloneScope,
    generation: CanonicalCloneGeneration,
    algo: HashAlgo,
)
    requires
        a.normalizes(first, scope, generation, algo),
        b.normalizes(second, scope, generation, algo),
        first.wants@.to_set() == second.wants@.to_set(),
        asks_tags(first.capabilities@) == asks_tags(second.capabilities@),
        asks_ofs_delta(first.capabilities@) == asks_ofs_delta(second.capabilities@),
    ensures
        same_identity(a, b),
        shape_encoding(a) == shape_encoding(b),
{
    lemma_ascending_unique(a.wants@, b.wants@);
}

/// An ascending list is determined by its members.
proof fn lemma_ascending_unique(a: Seq<ObjectId>, b: Seq<ObjectId>)
    requires
        ascending(a),
        ascending(b),
        a.to_set() == b.to_set(),
    ensures
        a == b,
    decreases a.len(),
{
    if a.len() == 0 {
        if b.len() > 0 {
            assert(b.to_set().contains(b[0]));
            assert(a.contains(b[0]));
        }
        assert(a =~= b);
    } else {
        assert(a.to_set().contains(a.last()));
        assert(b.contains(a.last()));
        assert(b.to_set().contains(b.last()));
        assert(a.contains(b.last()));
        let i = choose|i: int| 0 <= i < b.len() && b[i] == a.last();
        let j = choose|j: int| 0 <= j < a.len() && a[j] == b.last();
        crate::object::lemma_id_order_total(a.last(), b.last());
        if i < b.len() - 1 {
            assert(b[i].spec_before(b[b.len() - 1]));
        }
        if j < a.len() - 1 {
            assert(a[j].spec_before(a[a.len() - 1]));
        }
        assert(a.last() == b.last());
        let fa = a.drop_last();
        let fb = b.drop_last();
        assert(ascending(fa)) by {
            assert forall|p: int, q: int|
                #![trigger fa[p], fa[q]]
                0 <= p < q < fa.len() implies fa[p].spec_before(fa[q]) by {
                assert(a[p].spec_before(a[q]));
            }
        }
        assert(ascending(fb)) by {
            assert forall|p: int, q: int|
                #![trigger fb[p], fb[q]]
                0 <= p < q < fb.len() implies fb[p].spec_before(fb[q]) by {
                assert(b[p].spec_before(b[q]));
            }
        }
        assert(fa.to_set() =~= fb.to_set()) by {
            assert forall|x: ObjectId| fa.to_set().contains(x) <==> fb.to_set().contains(x) by {
                lemma_without_last(a, b, x);
                lemma_without_last(b, a, x);
            }
        }
        lemma_ascending_unique(fa, fb);
        assert(a =~= fa.push(a.last()));
        assert(b =~= fb.push(b.last()));
    }
}

/// A member before the last is one before the last of any list with the same members.
proof fn lemma_without_last(a: Seq<ObjectId>, b: Seq<ObjectId>, x: ObjectId)
    requires
        a.len() > 0,
        b.len() > 0,
        ascending(a),
        a.to_set() == b.to_set(),
        a.last() == b.last(),
    ensures
        a.drop_last().contains(x) ==> b.drop_last().contains(x),
{
    let fa = a.drop_last();
    let fb = b.drop_last();
    if fa.contains(x) {
        let i = choose|i: int| 0 <= i < fa.len() && fa[i] == x;
        assert(a[i] == x);
        assert(a[i].spec_before(a[a.len() - 1]));
        crate::object::lemma_id_order_total(x, a.last());
        assert(a.to_set().contains(x));
        assert(b.contains(x));
        let j = choose|j: int| 0 <= j < b.len() && b[j] == x;
        assert(fb[j] == x);
    }
}

/// The text is not blank and takes at most `maximum` bytes.
pub open spec fn text_fits(text: Seq<char>, maximum: int) -> bool {
    !blank(text) && encode_utf8(text).len() <= maximum
}

/// Return whether a text is not blank and takes at most `maximum` bytes.
pub fn check_text(text: &String, maximum: usize) -> (fits: bool)
    ensures
        fits == text_fits(text@, maximum as int),
{
    let rest: &str = trim_text(text.as_str());
    proof {
        lemma_trimmed(text@, rest@);
    }
    !rest.is_empty() && text_bytes(text) <= maximum
}

/// Opaque storage locator of canonical pack bytes.
pub struct CanonicalCloneLocator {
    value: String,
}

impl View for CanonicalCloneLocator {
    type V = Seq<char>;

    closed spec fn view(&self) -> Seq<char> {
        self.value@
    }
}

impl CanonicalCloneLocator {
    /// Validate and construct an opaque locator.
    pub fn new(value: String) -> (result: Result<Self, CanonicalCloneError>)
        ensures
            match result {
                Ok(locator) => text_fits(value@, 2_048) && locator@ == value@,
                Err(error) => !text_fits(value@, 2_048) && error
                    == CanonicalCloneError::InvalidLocator,
            },
    {
        if !check_text(&value, 2_048) {
            return Err(CanonicalCloneError::InvalidLocator);
        }
        Ok(CanonicalCloneLocator { value })
    }

    /// Borrow the opaque locator.
    pub fn as_str(&self) -> (text: &str)
        ensures
            text@ == self@,
    {
        self.value.as_str()
    }
}

/// Opaque singleflight ownership token.
pub struct CanonicalCloneToken {
    value: String,
}

impl View for CanonicalCloneToken {
    type V = Seq<char>;

    closed spec fn view(&self) -> Seq<char> {
        self.value@
    }
}

impl Clone for CanonicalCloneToken {
    fn clone(&self) -> (copy: Self)
        ensures
            copy@ == self@,
    {
        CanonicalCloneToken { value: self.value.clone() }
    }
}

impl CanonicalCloneToken {
    /// Validate and construct an ownership token.
    pub fn new(value: String) -> (result: Result<Self, CanonicalCloneError>)
        ensures
            match result {
                Ok(token) => text_fits(value@, 256) && token@ == value@,
                Err(error) => !text_fits(value@, 256) && error == CanonicalCloneError::InvalidToken,
            },
    {
        if !check_text(&value, 256) {
            return Err(CanonicalCloneError::InvalidToken);
        }
        Ok(CanonicalCloneToken { value })
    }

    /// Borrow the opaque token.
    pub fn as_str(&self) -> (text: &str)
        ensures
            text@ == self@,
    {
        self.value.as_str()
    }

    /// Return whether two tokens are the same.
    pub fn same(&self, other: &CanonicalCloneToken) -> (same: bool)
        ensures
            same == (self@ == other@),
    {
        self.value == other.value
    }
}

/// Verification state of canonical PACK bytes.
#[derive(Clone, Copy, Debug, PartialEq, Eq, Structural)]
pub enum CanonicalCloneVerification {
    /// Not yet checked.
    Unverified,
    /// Bytes and checksum were checked.
    Verified,
}

/// Lifecycle of a manifest.
#[derive(Clone, Copy, Debug, PartialEq, Eq, Structural)]
pub enum CanonicalCloneManifestState {
    /// May be served when verified.
    Ready,
    /// Kept until its retirement time, but not served.
    Retired,
    /// Building or verifying failed.
    Failed,
}

/// Purpose of a generated pack.
#[derive(Clone, Copy, Debug, PartialEq, Eq, Structural)]
pub enum ClonePackPurpose {
    /// Reusable full clone.
    Canonical,
}

/// Metadata of a canonical clone pack.
pub struct CanonicalCloneManifest {
    /// Purpose.
    pub purpose: ClonePackPurpose,
    /// Key.
    pub key: CanonicalCloneKey,
    /// Shape that the pack represents.
    pub shape: CanonicalCloneShape,
    /// Generation captured by the pack.
    pub generation: CanonicalCloneGeneration,
    /// Trailing checksum of the pack.
    pub pack_checksum: ObjectId,
    /// Hash algorithm of the pack.
    pub hash_algo: HashAlgo,
    /// Object count in the header.
    pub object_count: u32,
    /// Complete size, with the trailer.
    pub size_bytes: u64,
    /// Creation time.
    pub created_at: Timestamp,
    /// Where the bytes are.
    pub locator: CanonicalCloneLocator,
    /// Verification state.
    pub verification: CanonicalCloneVerification,
    /// Lifecycle.
    pub state: CanonicalCloneManifestState,
    /// Retirement time of retired manifests.
    pub retire_after: Option<Timestamp>,
}

impl CanonicalCloneManifest {
    /// What is wrong with the manifest.
    pub open spec fn fault(self) -> Option<CanonicalCloneError> {
        if self.generation.incarnation == 0 {
            Some(CanonicalCloneError::InvalidGeneration)
        } else if key_fault(self.shape) is Some {
            key_fault(self.shape)
        } else if self.key.spec_digest() != hashed_id(HashAlgo::Sha256, shape_encoding(self.shape))
            || self.shape.generation != self.generation || self.shape.hash_algo != self.hash_algo
            || self.pack_checksum.spec_algo() != self.hash_algo || self.pack_checksum.spec_is_zero()
            || self.object_count == 0 || self.object_count < self.shape.wants@.len()
            || self.size_bytes < 12 + self.hash_algo.spec_len() || (self.state
            == CanonicalCloneManifestState::Ready && self.verification
            != CanonicalCloneVerification::Verified) || (self.state
            == CanonicalCloneManifestState::Retired) != (self.retire_after is Some) || (
        self.retire_after is Some && self.retire_after->0.unix_nanos
            <= self.created_at.unix_nanos) {
            Some(CanonicalCloneError::InvalidManifest)
        } else {
            None
        }
    }

    /// Validate the manifest.
    pub fn validate(&self) -> (result: Result<(), CanonicalCloneError>)
        ensures
            match self.fault() {
                Some(fault) => result == Err::<(), CanonicalCloneError>(fault),
                None => result is Ok,
            },
    {
        if let Err(error) = self.generation.validate() {
            return Err(error);
        }
        let key = match self.shape.key() {
            Ok(key) => key,
            Err(error) => {
                return Err(error);
            },
        };
        let shape_wants: usize = self.shape.wants.len();
        let late: bool = match self.retire_after {
            Some(retire_after) => retire_after.unix_nanos <= self.created_at.unix_nanos,
            None => false,
        };
        if key != self.key || self.shape.generation != self.generation || self.shape.hash_algo
            != self.hash_algo || self.pack_checksum.algo() != self.hash_algo
            || self.pack_checksum.is_zero() || self.object_count == 0 || (self.object_count as u64)
            < shape_wants as u64 || self.size_bytes < 12 + self.hash_algo.len() as u64 || (
        self.state == CanonicalCloneManifestState::Ready && self.verification
            != CanonicalCloneVerification::Verified) || (self.state
            == CanonicalCloneManifestState::Retired) != self.retire_after.is_some() || late {
            return Err(CanonicalCloneError::InvalidManifest);
        }
        Ok(())
    }

    /// The manifest may be served.
    pub open spec fn eligible(self) -> bool {
        &&& self.verification == CanonicalCloneVerification::Verified
        &&& self.state == CanonicalCloneManifestState::Ready
        &&& self.retire_after is None
    }

    /// Return whether the manifest may be served.
    pub fn is_eligible(&self) -> (eligible: bool)
        ensures
            eligible == self.eligible(),
    {
        self.verification == CanonicalCloneVerification::Verified && self.state
            == CanonicalCloneManifestState::Ready && self.retire_after.is_none()
    }

    /// The manifest once retired.
    pub open spec fn retired(self, retire_after: Timestamp) -> CanonicalCloneManifest {
        CanonicalCloneManifest {
            state: CanonicalCloneManifestState::Retired,
            retire_after: Some(retire_after),
            ..self
        }
    }
}

/// Fenced lease of one builder.
pub struct CanonicalCloneLease {
    /// Ownership token.
    pub token: CanonicalCloneToken,
    /// Strictly increasing fence.
    pub fencing: u64,
    /// When the lease was issued.
    pub issued_at: Timestamp,
    /// Latest observation of its owner.
    pub last_observed_at: Timestamp,
    /// Exclusive deadline.
    pub expires_at: Timestamp,
}

impl CanonicalCloneLease {
    /// The lease belongs to this owner, and is live.
    pub open spec fn held_by(self, token: Seq<char>, fencing: u64, observed_at: Timestamp) -> bool {
        &&& self.token@ == token
        &&& self.fencing == fencing
        &&& self.last_observed_at.unix_nanos <= observed_at.unix_nanos
        &&& observed_at.unix_nanos < self.expires_at.unix_nanos
    }

    /// Return whether the lease belongs to this owner and is live.
    fn check_owner(
        &self,
        token: &CanonicalCloneToken,
        fencing: u64,
        observed_at: Timestamp,
    ) -> (held: bool)
        ensures
            held == self.held_by(token@, fencing, observed_at),
    {
        self.token.same(token) && self.fencing == fencing && self.last_observed_at.unix_nanos
            <= observed_at.unix_nanos && observed_at.unix_nanos < self.expires_at.unix_nanos
    }
}

/// Singleflight lifecycle.
pub enum CanonicalCloneFlightState {
    /// No builder.
    Idle {
        /// Last fence.
        last_fencing: u64,
    },
    /// One builder, until its lease expires.
    Building(CanonicalCloneLease),
    /// An eligible manifest was published.
    Published(CanonicalCloneManifest),
    /// The last builder failed; a higher fence may try again.
    Failed {
        /// Last fence.
        last_fencing: u64,
        /// The builder that failed.
        token: CanonicalCloneToken,
    },
    /// The generation was invalidated and can never publish.
    Invalidated {
        /// When it was invalidated.
        invalidated_at: Timestamp,
        /// What was published, retired.
        retired: Option<Box<CanonicalCloneManifest>>,
    },
}

/// Singleflight of one key and generation.
pub struct CanonicalCloneSingleflight {
    key: CanonicalCloneKey,
    generation: CanonicalCloneGeneration,
    state: CanonicalCloneFlightState,
    last_observed_at: Option<Timestamp>,
}

/// Outcome of a claim.
#[derive(Clone, Copy, Debug, PartialEq, Eq, Structural)]
pub enum CanonicalCloneClaimResult {
    /// The claim was installed.
    Claimed,
    /// A live builder owns the flight.
    Busy,
    /// A manifest is published.
    Published,
    /// The generation was invalidated.
    Ineligible,
    /// The fence is not newer than the last.
    Stale,
}

/// Outcome of a fenced change.
#[derive(Clone, Copy, Debug, PartialEq, Eq, Structural)]
pub enum CanonicalCloneMutationResult {
    /// The change was made.
    Applied,
    /// Token, fence, lease, key or generation does not match.
    Stale,
    /// The generation was invalidated.
    Ineligible,
}

/// The fence that a new claim has to exceed, where a claim is possible.
pub open spec fn claimable_fence(state: CanonicalCloneFlightState, observed_at: Timestamp) -> Option<
    u64,
> {
    match state {
        CanonicalCloneFlightState::Idle { last_fencing } => Some(last_fencing),
        CanonicalCloneFlightState::Failed { last_fencing, .. } => Some(last_fencing),
        CanonicalCloneFlightState::Building(lease) => if observed_at.unix_nanos
            >= lease.expires_at.unix_nanos {
            Some(lease.fencing)
        } else {
            None
        },
        _ => None,
    }
}

/// What a change by someone who is not the live builder comes to.
pub open spec fn refusal(state: CanonicalCloneFlightState) -> CanonicalCloneMutationResult {
    if state is Invalidated {
        CanonicalCloneMutationResult::Ineligible
    } else {
        CanonicalCloneMutationResult::Stale
    }
}

impl CanonicalCloneSingleflight {
    /// The key.
    pub closed spec fn spec_key(self) -> CanonicalCloneKey {
        self.key
    }

    /// The generation.
    pub closed spec fn spec_generation(self) -> CanonicalCloneGeneration {
        self.generation
    }

    /// The lifecycle state.
    pub closed spec fn spec_state(self) -> CanonicalCloneFlightState {
        self.state
    }

    /// When the last change was observed.
    pub closed spec fn spec_observed(self) -> Option<Timestamp> {
        self.last_observed_at
    }

    /// The observation comes before the last change.
    pub open spec fn out_of_order(self, observed_at: Timestamp) -> bool {
        self.spec_observed() is Some && observed_at.unix_nanos < self.spec_observed()->0.unix_nanos
    }

    /// The state moved on at this observation.
    pub open spec fn moved_to(
        self,
        before: Self,
        state: CanonicalCloneFlightState,
        observed_at: Timestamp,
    ) -> bool {
        &&& self.spec_key() == before.spec_key()
        &&& self.spec_generation() == before.spec_generation()
        &&& self.spec_state() == state
        &&& self.spec_observed() == Some(observed_at)
    }

    /// Create an idle state.
    pub fn new(key: CanonicalCloneKey, generation: CanonicalCloneGeneration) -> (result: Result<
        Self,
        CanonicalCloneError,
    >)
        ensures
            match result {
                Ok(flight) => {
                    &&& generation.incarnation != 0
                    &&& flight.spec_key() == key
                    &&& flight.spec_generation() == generation
                    &&& flight.spec_state() == (CanonicalCloneFlightState::Idle { last_fencing: 0 })
                    &&& flight.spec_observed() is None
                },
                Err(error) => generation.incarnation == 0 && error
                    == CanonicalCloneError::InvalidGeneration,
            },
    {
        if let Err(error) = generation.validate() {
            return Err(error);
        }
        Ok(
            CanonicalCloneSingleflight {
                key,
                generation,
                state: CanonicalCloneFlightState::Idle { last_fencing: 0 },
                last_observed_at: None,
            },
        )
    }

    /// Return the key.
    pub fn key(&self) -> (key: CanonicalCloneKey)
        ensures
            key == self.spec_key(),
    {
        self.key
    }

    /// Return the generation.
    pub fn generation(&self) -> (generation: CanonicalCloneGeneration)
        ensures
            generation == self.spec_generation(),
    {
        self.generation
    }

    /// Borrow the lifecycle state.
    pub fn state(&self) -> (state: &CanonicalCloneFlightState)
        ensures
            *state == self.spec_state(),
    {
        &self.state
    }

    /// Return when the last change was observed.
    pub fn last_observed_at(&self) -> (observed_at: Option<Timestamp>)
        ensures
            observed_at == self.spec_observed(),
    {
        self.last_observed_at
    }

    /// Take the lifecycle state out.
    pub fn into_state(self) -> (state: CanonicalCloneFlightState)
        ensures
            state == self.spec_state(),
    {
        self.state
    }

    fn validate_observed_at(&self, observed_at: Timestamp) -> (result: Result<
        (),
        CanonicalCloneError,
    >)
        ensures
            result == if self.out_of_order(observed_at) {
                Err::<(), CanonicalCloneError>(CanonicalCloneError::NonMonotonicTime)
            } else {
                Ok(())
            },
    {
        match self.last_observed_at {
            Some(previous) => {
                if observed_at.unix_nanos < previous.unix_nanos {
                    return Err(CanonicalCloneError::NonMonotonicTime);
                }
                Ok(())
            },
            None => Ok(()),
        }
    }

    /// What a claim comes to.
    pub open spec fn claim_outcome(
        self,
        fencing: u64,
        observed_at: Timestamp,
        expires_at: Timestamp,
    ) -> Result<CanonicalCloneClaimResult, CanonicalCloneError> {
        if fencing == 0 || expires_at.unix_nanos <= observed_at.unix_nanos {
            Err(CanonicalCloneError::InvalidLease)
        } else if self.out_of_order(observed_at) {
            Err(CanonicalCloneError::NonMonotonicTime)
        } else {
            match claimable_fence(self.spec_state(), observed_at) {
                Some(last) => if last == u64::MAX {
                    Err(CanonicalCloneError::FencingOverflow)
                } else if fencing <= last {
                    Ok(CanonicalCloneClaimResult::Stale)
                } else {
                    Ok(CanonicalCloneClaimResult::Claimed)
                },
                None => Ok(
                    match self.spec_state() {
                        CanonicalCloneFlightState::Published(_) =>
                            CanonicalCloneClaimResult::Published,
                        CanonicalCloneFlightState::Invalidated { .. } =>
                            CanonicalCloneClaimResult::Ineligible,
                        _ => CanonicalCloneClaimResult::Busy,
                    },
                ),
            }
        }
    }

    /// Claim the flight with a strictly newer fence.
    pub fn claim(
        &mut self,
        token: CanonicalCloneToken,
        fencing: u64,
        observed_at: Timestamp,
        expires_at: Timestamp,
    ) -> (result: Result<CanonicalCloneClaimResult, CanonicalCloneError>)
        ensures
            result == old(self).claim_outcome(fencing, observed_at, expires_at),
            result == Ok::<CanonicalCloneClaimResult, CanonicalCloneError>(
                CanonicalCloneClaimResult::Claimed,
            ) ==> final(self).moved_to(
                *old(self),
                CanonicalCloneFlightState::Building(
                    CanonicalCloneLease {
                        token,
                        fencing,
                        issued_at: observed_at,
                        last_observed_at: observed_at,
                        expires_at,
                    },
                ),
                observed_at,
            ),
            result != Ok::<CanonicalCloneClaimResult, CanonicalCloneError>(
                CanonicalCloneClaimResult::Claimed,
            ) ==> *final(self) == *old(self),
    {
        if fencing == 0 || expires_at.unix_nanos <= observed_at.unix_nanos {
            return Err(CanonicalCloneError::InvalidLease);
        }
        if let Err(error) = self.validate_observed_at(observed_at) {
            return Err(error);
        }
        let last: u64 = match &self.state {
            CanonicalCloneFlightState::Idle { last_fencing } => *last_fencing,
            CanonicalCloneFlightState::Failed { last_fencing, .. } => *last_fencing,
            CanonicalCloneFlightState::Building(lease) => {
                if observed_at.unix_nanos < lease.expires_at.unix_nanos {
                    return Ok(CanonicalCloneClaimResult::Busy);
                }
                lease.fencing
            },
            CanonicalCloneFlightState::Published(_) => {
                return Ok(CanonicalCloneClaimResult::Published);
            },
            CanonicalCloneFlightState::Invalidated { .. } => {
                return Ok(CanonicalCloneClaimResult::Ineligible);
            },
        };
        if last == u64::MAX {
            return Err(CanonicalCloneError::FencingOverflow);
        }
        if fencing <= last {
            return Ok(CanonicalCloneClaimResult::Stale);
        }
        self.state = CanonicalCloneFlightState::Building(
            CanonicalCloneLease {
                token,
                fencing,
                issued_at: observed_at,
                last_observed_at: observed_at,
                expires_at,
            },
        );
        self.last_observed_at = Some(observed_at);
        Ok(CanonicalCloneClaimResult::Claimed)
    }

    fn refuse(&self) -> (result: CanonicalCloneMutationResult)
        ensures
            result == refusal(self.spec_state()),
    {
        match &self.state {
            CanonicalCloneFlightState::Invalidated { .. } => CanonicalCloneMutationResult::Ineligible,
            _ => CanonicalCloneMutationResult::Stale,
        }
    }

    /// What a renewal comes to.
    pub open spec fn renew_outcome(
        self,
        token: Seq<char>,
        fencing: u64,
        observed_at: Timestamp,
        expires_at: Timestamp,
    ) -> Result<CanonicalCloneMutationResult, CanonicalCloneError> {
        if expires_at.unix_nanos <= observed_at.unix_nanos {
            Err(CanonicalCloneError::InvalidLease)
        } else if self.out_of_order(observed_at) {
            Err(CanonicalCloneError::NonMonotonicTime)
        } else {
            match self.spec_state() {
                CanonicalCloneFlightState::Building(lease) => if lease.held_by(
                    token,
                    fencing,
                    observed_at,
                ) && expires_at.unix_nanos > lease.expires_at.unix_nanos {
                    Ok(CanonicalCloneMutationResult::Applied)
                } else {
                    Ok(CanonicalCloneMutationResult::Stale)
                },
                _ => Ok(refusal(self.spec_state())),
            }
        }
    }

    /// Renew the lease of the live builder, without changing its fence.
    pub fn renew(
        &mut self,
        token: &CanonicalCloneToken,
        fencing: u64,
        observed_at: Timestamp,
        expires_at: Timestamp,
    ) -> (result: Result<CanonicalCloneMutationResult, CanonicalCloneError>)
        ensures
            result == old(self).renew_outcome(token@, fencing, observed_at, expires_at),
            result == Ok::<CanonicalCloneMutationResult, CanonicalCloneError>(
                CanonicalCloneMutationResult::Applied,
            ) ==> final(self).moved_to(
                *old(self),
                CanonicalCloneFlightState::Building(
                    CanonicalCloneLease {
                        last_observed_at: observed_at,
                        expires_at,
                        ..old(self).spec_state()->Building_0
                    },
                ),
                observed_at,
            ),
            result != Ok::<CanonicalCloneMutationResult, CanonicalCloneError>(
                CanonicalCloneMutationResult::Applied,
            ) ==> *final(self) == *old(self),
    {
        if expires_at.unix_nanos <= observed_at.unix_nanos {
            return Err(CanonicalCloneError::InvalidLease);
        }
        if let Err(error) = self.validate_observed_at(observed_at) {
            return Err(error);
        }
        let refused = self.refuse();
        match &mut self.state {
            CanonicalCloneFlightState::Building(lease) => {
                if !lease.check_owner(token, fencing, observed_at) || expires_at.unix_nanos
                    <= lease.expires_at.unix_nanos {
                    return Ok(CanonicalCloneMutationResult::Stale);
                }
                lease.last_observed_at = observed_at;
                lease.expires_at = expires_at;
            },
            _ => {
                return Ok(refused);
            },
        }
        self.last_observed_at = Some(observed_at);
        Ok(CanonicalCloneMutationResult::Applied)
    }

    /// What a publication comes to.
    pub open spec fn publish_outcome(
        self,
        token: Seq<char>,
        fencing: u64,
        observed_at: Timestamp,
        manifest: CanonicalCloneManifest,
    ) -> Result<CanonicalCloneMutationResult, CanonicalCloneError> {
        if manifest.fault() is Some {
            Err(manifest.fault()->0)
        } else if self.out_of_order(observed_at) {
            Err(CanonicalCloneError::NonMonotonicTime)
        } else {
            match self.spec_state() {
                CanonicalCloneFlightState::Building(lease) => if lease.held_by(
                    token,
                    fencing,
                    observed_at,
                ) && manifest.key == self.spec_key() && manifest.generation
                    == self.spec_generation() && manifest.created_at.unix_nanos
                    <= observed_at.unix_nanos && manifest.eligible() {
                    Ok(CanonicalCloneMutationResult::Applied)
                } else {
                    Ok(CanonicalCloneMutationResult::Stale)
                },
                _ => Ok(refusal(self.spec_state())),
            }
        }
    }

    /// Publish from the live builder, for exactly this key and generation.
    pub fn publish(
        &mut self,
        token: &CanonicalCloneToken,
        fencing: u64,
        observed_at: Timestamp,
        manifest: CanonicalCloneManifest,
    ) -> (result: Result<CanonicalCloneMutationResult, CanonicalCloneError>)
        ensures
            result == old(self).publish_outcome(token@, fencing, observed_at, manifest),
            result == Ok::<CanonicalCloneMutationResult, CanonicalCloneError>(
                CanonicalCloneMutationResult::Applied,
            ) ==> final(self).moved_to(
                *old(self),
                CanonicalCloneFlightState::Published(manifest),
                observed_at,
            ),
            result != Ok::<CanonicalCloneMutationResult, CanonicalCloneError>(
                CanonicalCloneMutationResult::Applied,
            ) ==> *final(self) == *old(self),
    {
        if let Err(error) = manifest.validate() {
            return Err(error);
        }
        if let Err(error) = self.validate_observed_at(observed_at) {
            return Err(error);
        }
        let owned: bool = match &self.state {
            CanonicalCloneFlightState::Building(lease) => lease.check_owner(
                token,
                fencing,
                observed_at,
            ),
            _ => {
                return Ok(self.refuse());
            },
        };
        if !owned || manifest.key != self.key || manifest.generation != self.generation
            || manifest.created_at.unix_nanos > observed_at.unix_nanos || !manifest.is_eligible() {
            return Ok(CanonicalCloneMutationResult::Stale);
        }
        self.state = CanonicalCloneFlightState::Published(manifest);
        self.last_observed_at = Some(observed_at);
        Ok(CanonicalCloneMutationResult::Applied)
    }

    /// What a failure comes to.
    pub open spec fn fail_outcome(
        self,
        token: Seq<char>,
        fencing: u64,
        observed_at: Timestamp,
    ) -> Result<CanonicalCloneMutationResult, CanonicalCloneError> {
        if self.out_of_order(observed_at) {
            Err(CanonicalCloneError::NonMonotonicTime)
        } else {
            match self.spec_state() {
                CanonicalCloneFlightState::Failed { last_fencing, token: failed } => if last_fencing
                    == fencing && failed@ == token {
                    Ok(CanonicalCloneMutationResult::Applied)
                } else {
                    Ok(CanonicalCloneMutationResult::Stale)
                },
                CanonicalCloneFlightState::Building(lease) => if lease.held_by(
                    token,
                    fencing,
                    observed_at,
                ) {
                    Ok(CanonicalCloneMutationResult::Applied)
                } else {
                    Ok(CanonicalCloneMutationResult::Stale)
                },
                _ => Ok(refusal(self.spec_state())),
            }
        }
    }

    /// Mark the live builder failed, keeping its fence; saying so twice changes nothing.
    pub fn fail(
        &mut self,
        token: &CanonicalCloneToken,
        fencing: u64,
        observed_at: Timestamp,
    ) -> (result: Result<CanonicalCloneMutationResult, CanonicalCloneError>)
        ensures
            result == old(self).fail_outcome(token@, fencing, observed_at),
            result == Ok::<CanonicalCloneMutationResult, CanonicalCloneError>(
                CanonicalCloneMutationResult::Applied,
            ) && old(self).spec_state() is Building ==> {
                &&& final(self).moved_to(*old(self), final(self).spec_state(), observed_at)
                &&& final(self).spec_state() is Failed
                &&& final(self).spec_state()->Failed_last_fencing == fencing
                &&& final(self).spec_state()->Failed_token@ == token@
            },
            result != Ok::<CanonicalCloneMutationResult, CanonicalCloneError>(
                CanonicalCloneMutationResult::Applied,
            ) || old(self).spec_state() !is Building ==> *final(self) == *old(self),
    {
        if let Err(error) = self.validate_observed_at(observed_at) {
            return Err(error);
        }
        match &self.state {
            CanonicalCloneFlightState::Failed { last_fencing, token: failed } => {
                return Ok(
                    if *last_fencing == fencing && failed.same(token) {
                        CanonicalCloneMutationResult::Applied
                    } else {
                        CanonicalCloneMutationResult::Stale
                    },
                );
            },
            CanonicalCloneFlightState::Building(lease) => {
                if !lease.check_owner(token, fencing, observed_at) {
                    return Ok(CanonicalCloneMutationResult::Stale);
                }
            },
            _ => {
                return Ok(self.refuse());
            },
        }
        self.state = CanonicalCloneFlightState::Failed {
            last_fencing: fencing,
            token: token.clone(),
        };
        self.last_observed_at = Some(observed_at);
        Ok(CanonicalCloneMutationResult::Applied)
    }

    /// What an invalidation comes to.
    pub open spec fn invalidate_outcome(
        self,
        generation: CanonicalCloneGeneration,
        invalidated_at: Timestamp,
        retire_after: Timestamp,
    ) -> Result<CanonicalCloneMutationResult, CanonicalCloneError> {
        if self.out_of_order(invalidated_at) {
            Err(CanonicalCloneError::NonMonotonicTime)
        } else if retire_after.unix_nanos <= invalidated_at.unix_nanos {
            Err(CanonicalCloneError::InvalidManifest)
        } else if generation != self.spec_generation() {
            Ok(CanonicalCloneMutationResult::Stale)
        } else {
            match self.spec_state() {
                CanonicalCloneFlightState::Published(manifest) => match manifest.retired(
                    retire_after,
                ).fault() {
                    Some(fault) => Err(fault),
                    None => Ok(CanonicalCloneMutationResult::Applied),
                },
                _ => Ok(CanonicalCloneMutationResult::Applied),
            }
        }
    }

    /// Invalidate exactly this generation, for good.
    pub fn invalidate(
        &mut self,
        generation: CanonicalCloneGeneration,
        invalidated_at: Timestamp,
        retire_after: Timestamp,
    ) -> (result: Result<CanonicalCloneMutationResult, CanonicalCloneError>)
        ensures
            result == old(self).invalidate_outcome(generation, invalidated_at, retire_after),
            result == Ok::<CanonicalCloneMutationResult, CanonicalCloneError>(
                CanonicalCloneMutationResult::Applied,
            ) && old(self).spec_state() !is Invalidated ==> final(self).moved_to(
                *old(self),
                CanonicalCloneFlightState::Invalidated {
                    invalidated_at,
                    retired: match old(self).spec_state() {
                        CanonicalCloneFlightState::Published(manifest) => Some(
                            Box::new(manifest.retired(retire_after)),
                        ),
                        _ => None,
                    },
                },
                invalidated_at,
            ),
            result != Ok::<CanonicalCloneMutationResult, CanonicalCloneError>(
                CanonicalCloneMutationResult::Applied,
            ) || old(self).spec_state() is Invalidated ==> *final(self) == *old(self),
    {
        if let Err(error) = self.validate_observed_at(invalidated_at) {
            return Err(error);
        }
        if retire_after.unix_nanos <= invalidated_at.unix_nanos {
            return Err(CanonicalCloneError::InvalidManifest);
        }
        if generation != self.generation {
            return Ok(CanonicalCloneMutationResult::Stale);
        }
        if let CanonicalCloneFlightState::Invalidated { .. } = &self.state {
            return Ok(CanonicalCloneMutationResult::Applied);
        }
        let mut state = CanonicalCloneFlightState::Idle { last_fencing: 0 };
        std::mem::swap(&mut state, &mut self.state);
        let mut retired: Option<Box<CanonicalCloneManifest>> = None;
        if let CanonicalCloneFlightState::Published(manifest) = state {
            let mut manifest: CanonicalCloneManifest = manifest;
            let lifecycle = manifest.state;
            let deadline = manifest.retire_after;
            manifest.state = CanonicalCloneManifestState::Retired;
            manifest.retire_after = Some(retire_after);
            if let Err(error) = manifest.validate() {
                manifest.state = lifecycle;
                manifest.retire_after = deadline;
                self.state = CanonicalCloneFlightState::Published(manifest);
                return Err(error);
            }
            retired = Some(Box::new(manifest));
        }
        self.state = CanonicalCloneFlightState::Invalidated { invalidated_at, retired };
        self.last_observed_at = Some(invalidated_at);
        Ok(CanonicalCloneMutationResult::Applied)
    }
}

/// The last fence, where the state still knows it.
pub open spec fn known_fence(state: CanonicalCloneFlightState) -> Option<u64> {
    match state {
        CanonicalCloneFlightState::Idle { last_fencing } => Some(last_fencing),
        CanonicalCloneFlightState::Failed { last_fencing, .. } => Some(last_fencing),
        CanonicalCloneFlightState::Building(lease) => Some(lease.fencing),
        _ => None,
    }
}

/// A claim that is granted takes a strictly newer fence than every earlier builder had.
pub proof fn law_fences_increase(
    flight: CanonicalCloneSingleflight,
    fencing: u64,
    observed_at: Timestamp,
    expires_at: Timestamp,
)
    requires
        flight.claim_outcome(fencing, observed_at, expires_at) == Ok::<
            CanonicalCloneClaimResult,
            CanonicalCloneError,
        >(CanonicalCloneClaimResult::Claimed),
    ensures
        known_fence(flight.spec_state()) is Some,
        fencing > known_fence(flight.spec_state())->0,
{
}

/// While a builder's lease lives, nobody else can claim, renew, publish or fail.
pub proof fn law_live_builder_excludes_others(
    flight: CanonicalCloneSingleflight,
    token: Seq<char>,
    fencing: u64,
    observed_at: Timestamp,
    expires_at: Timestamp,
    manifest: CanonicalCloneManifest,
)
    requires
        flight.spec_state() is Building,
        !flight.out_of_order(observed_at),
        observed_at.unix_nanos < flight.spec_state()->Building_0.expires_at.unix_nanos,
        flight.spec_state()->Building_0.token@ != token || flight.spec_state()->Building_0.fencing
            != fencing,
    ensures
        flight.claim_outcome(fencing, observed_at, expires_at) != Ok::<
            CanonicalCloneClaimResult,
            CanonicalCloneError,
        >(CanonicalCloneClaimResult::Claimed),
        flight.renew_outcome(token, fencing, observed_at, expires_at) != Ok::<
            CanonicalCloneMutationResult,
            CanonicalCloneError,
        >(CanonicalCloneMutationResult::Applied),
        flight.publish_outcome(token, fencing, observed_at, manifest) != Ok::<
            CanonicalCloneMutationResult,
            CanonicalCloneError,
        >(CanonicalCloneMutationResult::Applied),
        flight.fail_outcome(token, fencing, observed_at) != Ok::<
            CanonicalCloneMutationResult,
            CanonicalCloneError,
        >(CanonicalCloneMutationResult::Applied),
{
}

/// Once a lease has expired its builder can neither renew nor publish nor fail.
pub proof fn law_expired_builder_is_powerless(
    flight: CanonicalCloneSingleflight,
    token: Seq<char>,
    fencing: u64,
    observed_at: Timestamp,
    expires_at: Timestamp,
    manifest: CanonicalCloneManifest,
)
    requires
        flight.spec_state() is Building,
        observed_at.unix_nanos >= flight.spec_state()->Building_0.expires_at.unix_nanos,
    ensures
        flight.renew_outcome(token, fencing, observed_at, expires_at) != Ok::<
            CanonicalCloneMutationResult,
            CanonicalCloneError,
        >(CanonicalCloneMutationResult::Applied),
        flight.publish_outcome(token, fencing, observed_at, manifest) != Ok::<
            CanonicalCloneMutationResult,
            CanonicalCloneError,
        >(CanonicalCloneMutationResult::Applied),
        flight.fail_outcome(token, fencing, observed_at) != Ok::<
            CanonicalCloneMutationResult,
            CanonicalCloneError,
        >(CanonicalCloneMutationResult::Applied),
{
}

/// An invalidated generation can never be claimed or published again.
pub proof fn law_invalidation_is_permanent(
    flight: CanonicalCloneSingleflight,
    token: Seq<char>,
    fencing: u64,
    observed_at: Timestamp,
    expires_at: Timestamp,
    manifest: CanonicalCloneManifest,
)
    requires
        flight.spec_state() is Invalidated,
    ensures
        flight.claim_outcome(fencing, observed_at, expires_at) != Ok::<
            CanonicalCloneClaimResult,
            CanonicalCloneError,
        >(CanonicalCloneClaimResult::Claimed),
        flight.renew_outcome(token, fencing, observed_at, expires_at) != Ok::<
            CanonicalCloneMutationResult,
            CanonicalCloneError,
        >(CanonicalCloneMutationResult::Applied),
        flight.publish_outcome(token, fencing, observed_at, manifest) != Ok::<
            CanonicalCloneMutationResult,
            CanonicalCloneError,
        >(CanonicalCloneMutationResult::Applied),
        flight.fail_outcome(token, fencing, observed_at) != Ok::<
            CanonicalCloneMutationResult,
            CanonicalCloneError,
        >(CanonicalCloneMutationResult::Applied),
{
}

/// Whatever is published is valid, eligible, and for exactly this key and generation.
pub proof fn law_published_manifest_is_exact(
    flight: CanonicalCloneSingleflight,
    token: Seq<char>,
    fencing: u64,
    observed_at: Timestamp,
    manifest: CanonicalCloneManifest,
)
    requires
        flight.publish_outcome(token, fencing, observed_at, manifest) == Ok::<
            CanonicalCloneMutationResult,
            CanonicalCloneError,
        >(CanonicalCloneMutationResult::Applied),
    ensures
        manifest.fault() is None,
        manifest.eligible(),
        manifest.key == flight.spec_key(),
        manifest.generation == flight.spec_generation(),
        flight.spec_state() is Building,
        flight.spec_state()->Building_0.held_by(token, fencing, observed_at),
{
}

/// Outcome of storing a transition.
#[derive(Clone, Copy, Debug, PartialEq, Eq, Structural)]
pub enum CanonicalCloneStoreCas {
    /// The expected state matched, and the replacement was stored.
    Applied,
    /// The stored state had changed.
    Conflict,
}

/// Persistence of singleflight states.
///
/// An implementation compares the complete expected value atomically, keeps fences monotonic when a
/// key is deleted and created again, and refuses a replacement for another key.
pub trait CanonicalCloneStore {
    /// Persistence failure.
    type Error;

    /// The store answers a load this way.
    closed spec fn loads(
        &self,
        key: CanonicalCloneKey,
        answer: Result<Option<CanonicalCloneSingleflight>, Self::Error>,
    ) -> bool {
        true
    }

    /// Load the state of a key.
    fn load(&self, key: &CanonicalCloneKey) -> (result: Result<
        Option<CanonicalCloneSingleflight>,
        Self::Error,
    >)
        ensures
            self.loads(*key, result),
    ;

    /// Store a replacement if the stored state equals the expected one; expecting nothing inserts.
    fn compare_and_swap(
        &self,
        key: &CanonicalCloneKey,
        expected: Option<&CanonicalCloneSingleflight>,
        replacement: &CanonicalCloneSingleflight,
    ) -> Result<CanonicalCloneStoreCas, Self::Error>;
}

} // verus!
