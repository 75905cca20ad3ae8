//! Generation-safe lookup and bounded serving of verified canonical clone packs.
//!
//! A cached pack is read twice: the first pass checks length, header, object count, body digest and
//! trailing checksum before any response byte is written, and the second pass checks again while it
//! serves.

use crate::bytes::{append_bytes, copy_range, same_bytes};
use crate::canonical_clone::{
    CanonicalCloneError, CanonicalCloneFlightState, CanonicalCloneGeneration, CanonicalCloneKey,
    CanonicalCloneLease, CanonicalCloneLocator, CanonicalCloneManifest, CanonicalCloneSingleflight,
    CanonicalCloneStore,
};
use crate::clock::Timestamp;
use crate::digest::{digest_of, StreamHasher};
use crate::object::HashAlgo;
use crate::pack_stream::{
    spec_default_limits, BoundedVecPackSink, CancellationGate, CancellationProbe, PackAbortReason,
    PackChunkSink, PackSinkOperation, PackSinkState, PackStreamError, PackStreamLimits,
    PackStreamReport,
};
use crate::pack_writer::pack_header;
use vstd::prelude::*;

verus! {

/// Default bound of one cached-pack range read.
pub const DEFAULT_CANONICAL_CLONE_RANGE_BYTES: usize = 65_536;

/// Random access to immutable canonical pack bytes.
pub trait CanonicalCloneByteSource {
    /// Read failure.
    type Error;

    /// The source answers a question for the length this way.
    closed spec fn length_answered(
        &self,
        locator: CanonicalCloneLocator,
        answer: Result<Option<u64>, Self::Error>,
    ) -> bool {
        true
    }

    /// The source answers a range read this way.
    closed spec fn range_answered(
        &self,
        locator: CanonicalCloneLocator,
        offset: u64,
        length: usize,
        answer: Result<Option<Vec<u8>>, Self::Error>,
    ) -> bool {
        true
    }

    /// Return the complete length, if the bytes exist.
    fn content_length(&self, locator: &CanonicalCloneLocator) -> (result: Result<
        Option<u64>,
        Self::Error,
    >)
        ensures
            self.length_answered(*locator, result),
    ;

    /// Read at most `length` bytes from an offset.
    fn read_range(
        &self,
        locator: &CanonicalCloneLocator,
        offset: u64,
        length: usize,
    ) -> (result: Result<Option<Vec<u8>>, Self::Error>)
        ensures
            self.range_answered(*locator, offset, length, result),
    ;
}

/// Result of a cache lookup.
pub enum CanonicalCloneLookup {
    /// A verified manifest of exactly the requested generation.
    Hit(CanonicalCloneManifest),
    /// Nothing is known of this key.
    Missing,
    /// A live builder owns the generation.
    Building(CanonicalCloneLease),
    /// A builder may claim the flight.
    Claimable,
    /// The state belongs to another generation, or cannot be served.
    Ineligible,
}

/// Lookup failure.
#[derive(Debug)]
pub enum CanonicalCloneLookupError<E> {
    /// The store failed.
    Store(E),
    /// The stored state is inconsistent.
    Model(CanonicalCloneError),
}

/// What a stored flight comes to at an observation.
pub open spec fn flight_lookup(
    flight: CanonicalCloneSingleflight,
    key: CanonicalCloneKey,
    generation: CanonicalCloneGeneration,
    observed_at: Timestamp,
) -> Result<CanonicalCloneLookup, CanonicalCloneError> {
    if flight.spec_key() != key || flight.spec_generation() != generation {
        Ok(CanonicalCloneLookup::Ineligible)
    } else if flight.out_of_order(observed_at) {
        Err(CanonicalCloneError::NonMonotonicTime)
    } else {
        match flight.spec_state() {
            CanonicalCloneFlightState::Published(manifest) => if manifest.fault() is Some {
                Err(manifest.fault()->0)
            } else if manifest.key != key || manifest.generation != generation
                || !manifest.eligible() {
                Ok(CanonicalCloneLookup::Ineligible)
            } else {
                Ok(CanonicalCloneLookup::Hit(manifest))
            },
            CanonicalCloneFlightState::Building(lease) => if observed_at.unix_nanos
                < lease.expires_at.unix_nanos {
                Ok(CanonicalCloneLookup::Building(lease))
            } else {
                Ok(CanonicalCloneLookup::Claimable)
            },
            CanonicalCloneFlightState::Idle { .. } => Ok(CanonicalCloneLookup::Claimable),
            CanonicalCloneFlightState::Failed { .. } => Ok(CanonicalCloneLookup::Claimable),
            CanonicalCloneFlightState::Invalidated { .. } => Ok(CanonicalCloneLookup::Ineligible),
        }
    }
}

/// Classify a stored flight.
pub fn classify_flight(
    flight: CanonicalCloneSingleflight,
    key: CanonicalCloneKey,
    generation: CanonicalCloneGeneration,
    observed_at: Timestamp,
) -> (result: Result<CanonicalCloneLookup, CanonicalCloneError>)
    ensures
        result == flight_lookup(flight, key, generation, observed_at),
{
    if flight.key() != key || flight.generation() != generation {
        return Ok(CanonicalCloneLookup::Ineligible);
    }
    if let Some(previous) = flight.last_observed_at() {
        if observed_at.unix_nanos < previous.unix_nanos {
            return Err(CanonicalCloneError::NonMonotonicTime);
        }
    }
    match flight.into_state() {
        CanonicalCloneFlightState::Published(manifest) => {
            if let Err(error) = manifest.validate() {
                return Err(error);
            }
            if manifest.key != key || manifest.generation != generation || !manifest.is_eligible() {
                return Ok(CanonicalCloneLookup::Ineligible);
            }
            Ok(CanonicalCloneLookup::Hit(manifest))
        },
        CanonicalCloneFlightState::Building(lease) => {
            if observed_at.unix_nanos < lease.expires_at.unix_nanos {
                Ok(CanonicalCloneLookup::Building(lease))
            } else {
                Ok(CanonicalCloneLookup::Claimable)
            }
        },
        CanonicalCloneFlightState::Idle { .. } => Ok(CanonicalCloneLookup::Claimable),
        CanonicalCloneFlightState::Failed { .. } => Ok(CanonicalCloneLookup::Claimable),
        CanonicalCloneFlightState::Invalidated { .. } => Ok(CanonicalCloneLookup::Ineligible),
    }
}

/// A hit is valid, may be served, and belongs to exactly the requested key and generation.
pub open spec fn hit_is_exact(
    lookup: CanonicalCloneLookup,
    key: CanonicalCloneKey,
    generation: CanonicalCloneGeneration,
) -> bool {
    match lookup {
        CanonicalCloneLookup::Hit(manifest) => manifest.fault() is None && manifest.eligible()
            && manifest.key == key && manifest.generation == generation,
        _ => true,
    }
}

/// Whatever is stored, a lookup never hits across a generation boundary.
pub proof fn law_lookup_never_crosses_generations(
    flight: CanonicalCloneSingleflight,
    key: CanonicalCloneKey,
    generation: CanonicalCloneGeneration,
    observed_at: Timestamp,
)
    ensures
        flight_lookup(flight, key, generation, observed_at) matches Ok(lookup) ==> hit_is_exact(
            lookup,
            key,
            generation,
        ),
{
}

/// Load a canonical state without ever serving bytes across a generation boundary.
pub fn lookup_canonical_clone<C: CanonicalCloneStore>(
    store: &C,
    key: CanonicalCloneKey,
    generation: CanonicalCloneGeneration,
    observed_at: Timestamp,
) -> (result: Result<CanonicalCloneLookup, CanonicalCloneLookupError<C::Error>>)
    ensures
        result matches Ok(lookup) ==> hit_is_exact(lookup, key, generation),
        answered_lookup(*store, key, generation, observed_at, result),
{
    let loaded = store.load(&key);
    let ghost answer = loaded;
    let result = match loaded {
        Ok(Some(flight)) => match classify_flight(flight, key, generation, observed_at) {
            Ok(lookup) => Ok(lookup),
            Err(error) => Err(CanonicalCloneLookupError::Model(error)),
        },
        Ok(None) => Ok(CanonicalCloneLookup::Missing),
        Err(error) => Err(CanonicalCloneLookupError::Store(error)),
    };
    assert(result == lookup_of(answer, key, generation, observed_at));
    assert(answered_lookup(*store, key, generation, observed_at, result));
    result
}

/// What a lookup comes to for each answer of the store.
pub open spec fn lookup_of<E>(
    answer: Result<Option<CanonicalCloneSingleflight>, E>,
    key: CanonicalCloneKey,
    generation: CanonicalCloneGeneration,
    observed_at: Timestamp,
) -> Result<CanonicalCloneLookup, CanonicalCloneLookupError<E>> {
    match answer {
        Ok(Some(flight)) => match flight_lookup(flight, key, generation, observed_at) {
            Ok(lookup) => Ok(lookup),
            Err(error) => Err(CanonicalCloneLookupError::Model(error)),
        },
        Ok(None) => Ok(CanonicalCloneLookup::Missing),
        Err(error) => Err(CanonicalCloneLookupError::Store(error)),
    }
}

/// The result is what some answer of the store comes to.
pub open spec fn answered_lookup<C: CanonicalCloneStore>(
    store: C,
    key: CanonicalCloneKey,
    generation: CanonicalCloneGeneration,
    observed_at: Timestamp,
    result: Result<CanonicalCloneLookup, CanonicalCloneLookupError<C::Error>>,
) -> bool {
    exists|answer: Result<Option<CanonicalCloneSingleflight>, C::Error>| #[trigger]
        store.loads(key, answer) && result == lookup_of(answer, key, generation, observed_at)
}

/// Bounds of cached-pack serving.
#[derive(Clone, Copy, Debug, PartialEq, Eq, Structural)]
pub struct CanonicalCloneServeOptions {
    /// Maximum bytes of one read.
    pub range_bytes: usize,
    /// Response limits.
    pub stream_limits: PackStreamLimits,
}

impl CanonicalCloneServeOptions {
    /// The bounds may be used.
    pub open spec fn valid(self) -> bool {
        self.stream_limits.valid() && 0 < self.range_bytes <= self.stream_limits.max_chunk_bytes
    }

    /// Validate the bounds.
    pub fn validate(self) -> (result: Result<Self, PackStreamError>)
        ensures
            result == if self.valid() {
                Ok::<Self, PackStreamError>(self)
            } else {
                Err(PackStreamError::InvalidLimits)
            },
    {
        if let Err(error) = self.stream_limits.validate() {
            return Err(error);
        }
        if self.range_bytes == 0 || self.range_bytes > self.stream_limits.max_chunk_bytes {
            return Err(PackStreamError::InvalidLimits);
        }
        Ok(self)
    }
}

impl Default for CanonicalCloneServeOptions {
    fn default() -> (options: Self)
        ensures
            options.range_bytes == DEFAULT_CANONICAL_CLONE_RANGE_BYTES,
            options.stream_limits == spec_default_limits(),
            options.valid(),
    {
        CanonicalCloneServeOptions {
            range_bytes: DEFAULT_CANONICAL_CLONE_RANGE_BYTES,
            stream_limits: PackStreamLimits::default(),
        }
    }
}

/// Corruption or inconsistency of a cached pack.
#[derive(Debug)]
pub enum CanonicalCloneDataError<E> {
    /// A read failed.
    Source(E),
    /// The manifest cannot be served for this request.
    Ineligible,
    /// The bytes are gone.
    Missing,
    /// The stored length differs from the manifest.
    LengthMismatch,
    /// A read returned another number of bytes.
    InvalidRange,
    /// The PACK header is malformed or counts other objects.
    InvalidHeader,
    /// The digest or the trailer differs from the manifest.
    ChecksumMismatch,
    /// Byte accounting overflowed.
    ByteOverflow,
}

/// Serving failure.
#[derive(Debug)]
pub enum CanonicalCloneServeError<E> {
    /// The cached pack is unusable.
    Data(CanonicalCloneDataError<E>),
    /// The response failed.
    Stream(PackStreamError),
}

/// The bytes are a complete PACK of this count whose trailer is its digest and the checksum.
pub open spec fn pack_matches(
    pack: Seq<u8>,
    algo: HashAlgo,
    size: u64,
    count: u32,
    checksum: Seq<u8>,
) -> bool {
    let body = size - algo.spec_len();
    &&& pack.len() == size
    &&& 12 <= body
    &&& pack.take(12) == pack_header(count)
    &&& pack.skip(body) == digest_of(algo, pack.take(body))
    &&& pack.skip(body) == checksum
}

/// The bytes are the pack that a manifest describes.
pub open spec fn manifest_matches(manifest: CanonicalCloneManifest, pack: Seq<u8>) -> bool {
    pack_matches(
        pack,
        manifest.hash_algo,
        manifest.size_bytes,
        manifest.object_count,
        manifest.pack_checksum@,
    )
}

/// Incremental check of one cached pack.
struct PackVerifier {
    total_bytes: u64,
    trailer_start: u64,
    offset: u64,
    header: Vec<u8>,
    trailer: Vec<u8>,
    hasher: StreamHasher,
}

impl PackVerifier {
    /// The bytes seen so far.
    spec fn seen(self) -> Seq<u8> {
        self.hasher.absorbed() + self.trailer@
    }

    spec fn wf(self) -> bool {
        &&& 12 <= self.trailer_start
        &&& self.trailer_start + self.hasher.spec_algo().spec_len() == self.total_bytes
        &&& self.offset == self.seen().len()
        &&& self.offset <= self.total_bytes
        &&& self.hasher.absorbed().len() <= self.trailer_start
        &&& self.trailer@.len() > 0 ==> self.hasher.absorbed().len() == self.trailer_start
        &&& self.header@.len() == if self.offset < 12 {
            self.offset as int
        } else {
            12
        }
        &&& self.header@ == self.seen().take(self.header@.len() as int)
    }

    /// Start a check of what a manifest describes.
    fn new<E>(manifest: &CanonicalCloneManifest) -> (result: Result<
        Self,
        CanonicalCloneDataError<E>,
    >)
        ensures
            result is Ok <==> manifest.size_bytes >= 12 + manifest.hash_algo.spec_len(),
            match result {
                Ok(verifier) => {
                    &&& verifier.wf()
                    &&& verifier.seen() == Seq::<u8>::empty()
                    &&& verifier.total_bytes == manifest.size_bytes
                    &&& verifier.hasher.spec_algo() == manifest.hash_algo
                },
                Err(error) => error is InvalidHeader,
            },
    {
        let trailer_len: u64 = manifest.hash_algo.len() as u64;
        if manifest.size_bytes < trailer_len {
            return Err(CanonicalCloneDataError::InvalidHeader);
        }
        let trailer_start: u64 = manifest.size_bytes - trailer_len;
        if trailer_start < 12 {
            return Err(CanonicalCloneDataError::InvalidHeader);
        }
        let verifier = PackVerifier {
            total_bytes: manifest.size_bytes,
            trailer_start,
            offset: 0,
            header: Vec::new(),
            trailer: Vec::new(),
            hasher: StreamHasher::new(manifest.hash_algo),
        };
        assert(verifier.seen() =~= Seq::<u8>::empty());
        assert(verifier.header@ =~= verifier.seen().take(0));
        Ok(verifier)
    }

    /// Check more bytes.
    fn update<E>(&mut self, bytes: &[u8]) -> (result: Result<(), CanonicalCloneDataError<E>>)
        requires
            old(self).wf(),
        ensures
            result is Ok <==> bytes@.len() > 0 && old(self).seen().len() + bytes@.len()
                <= old(self).total_bytes,
            match result {
                Ok(_) => {
                    &&& final(self).wf()
                    &&& final(self).seen() == old(self).seen() + bytes@
                    &&& final(self).total_bytes == old(self).total_bytes
                    &&& final(self).hasher.spec_algo() == old(self).hasher.spec_algo()
                },
                Err(error) => error is InvalidRange || error is ByteOverflow,
            },
    {
        if bytes.len() == 0 {
            return Err(CanonicalCloneDataError::InvalidRange);
        }
        let ghost seen = self.seen();
        let length: u64 = bytes.len() as u64;
        let end: u64 = match self.offset.checked_add(length) {
            Some(end) => end,
            None => {
                return Err(CanonicalCloneDataError::ByteOverflow);
            },
        };
        if end > self.total_bytes {
            return Err(CanonicalCloneDataError::InvalidRange);
        }
        if self.offset < 12 {
            let room: usize = 12 - self.offset as usize;
            let taken: usize = if room < bytes.len() {
                room
            } else {
                bytes.len()
            };
            let front: Vec<u8> = copy_range(bytes, 0, taken);
            append_bytes(&mut self.header, front.as_slice());
        }
        let ghost header = self.header@;
        let mut split: usize = 0;
        if self.offset < self.trailer_start {
            let room: u64 = self.trailer_start - self.offset;
            split = if room < length {
                room as usize
            } else {
                bytes.len()
            };
            let body: Vec<u8> = copy_range(bytes, 0, split);
            self.hasher.update(body.as_slice());
            assert(body@ =~= bytes@.take(split as int));
        }
        let rest: Vec<u8> = copy_range(bytes, split, bytes.len());
        append_bytes(&mut self.trailer, rest.as_slice());
        self.offset = end;
        proof {
            assert(self.seen() =~= seen + bytes@);
            assert(header =~= (seen + bytes@).take(header.len() as int));
        }
        Ok(())
    }

    /// Conclude the check.
    fn finish<E>(self, manifest: &CanonicalCloneManifest) -> (result: Result<
        (),
        CanonicalCloneDataError<E>,
    >)
        requires
            self.wf(),
            self.total_bytes == manifest.size_bytes,
            self.hasher.spec_algo() == manifest.hash_algo,
        ensures
            result is Ok <==> manifest_matches(*manifest, self.seen()),
            match result {
                Ok(_) => true,
                Err(error) => if self.seen().len() != manifest.size_bytes {
                    error is LengthMismatch
                } else if self.seen().take(12) != pack_header(manifest.object_count) {
                    error is InvalidHeader
                } else {
                    error is ChecksumMismatch
                },
            },
    {
        let ghost seen = self.seen();
        if self.offset != self.total_bytes {
            return Err(CanonicalCloneDataError::LengthMismatch);
        }
        let mut expected: Vec<u8> = vec![0x50u8, 0x41u8, 0x43u8, 0x4bu8];
        crate::bytes::push_be_u32(&mut expected, 2);
        crate::bytes::push_be_u32(&mut expected, manifest.object_count);
        proof {
            assert(expected@ =~= pack_header(manifest.object_count));
            assert(seen.take(self.trailer_start as int) =~= self.hasher.absorbed()) by {
                assert(self.trailer@.len() > 0);
            }
            assert(seen.skip(self.trailer_start as int) =~= self.trailer@);
        }
        if !same_bytes(self.header.as_slice(), expected.as_slice()) {
            return Err(CanonicalCloneDataError::InvalidHeader);
        }
        let digest: Vec<u8> = self.hasher.finish().to_bytes();
        let checksum: Vec<u8> = manifest.pack_checksum.to_bytes();
        if !same_bytes(digest.as_slice(), self.trailer.as_slice()) || !same_bytes(
            digest.as_slice(),
            checksum.as_slice(),
        ) {
            return Err(CanonicalCloneDataError::ChecksumMismatch);
        }
        Ok(())
    }
}

/// Response framing in front of a transport.
///
/// The sink side takes raw PACK bytes; what is accepted counts those alone, not the framing.
pub trait UploadPackWire: PackChunkSink {
    /// Counters of the response.
    type Report;

    /// PACK bytes are framed in sideband packets.
    closed spec fn spec_framed(&self) -> bool {
        false
    }

    /// The most PACK bytes of one packet, given the largest chunk.
    closed spec fn spec_max_chunk(&self, max_chunk_bytes: usize) -> usize {
        max_chunk_bytes
    }

    /// The counters so far.
    closed spec fn spec_wire_report(&self) -> Self::Report {
        vstd::pervasive::arbitrary()
    }

    /// Return whether PACK bytes are framed in sideband packets.
    fn is_framed(&self) -> (framed: bool)
        ensures
            framed == self.spec_framed(),
    ;

    /// Return the most PACK bytes of one packet, given the largest chunk.
    fn max_pack_chunk_bytes(&self, max_chunk_bytes: usize) -> (bytes: usize)
        ensures
            bytes == self.spec_max_chunk(max_chunk_bytes),
    ;

    /// The question whether a response can be sent may be answered so.
    closed spec fn answers_response(
        &self,
        trailer_bytes: usize,
        object_count: usize,
        answer: Result<(), PackStreamError>,
    ) -> bool {
        true
    }

    /// The acknowledgement may be answered so.
    closed spec fn answers_prelude(&self, answer: Result<(), PackStreamError>) -> bool {
        true
    }

    /// Check that a response of this trailer length and object count can be sent.
    fn validate_response(&self, trailer_bytes: usize, object_count: usize) -> (result: Result<
        (),
        PackStreamError,
    >)
        ensures
            self.answers_response(trailer_bytes, object_count, result),
    ;

    /// Write the negative acknowledgement that precedes a full clone.
    fn write_prelude(&mut self) -> (result: Result<(), PackStreamError>)
        ensures
            old(self).answers_prelude(result),
            result is Ok ==> final(self).spec_state() is Open && final(self).accepted() == old(self).accepted(),
            result is Err ==> final(self).spec_state() !is Open,
    ;

    /// Return the counters.
    fn wire_report(&self) -> (report: Self::Report)
        ensures
            report == self.spec_wire_report(),
    ;
}

/// A sink that collects PACK bytes alone is a wire without framing; the acknowledgement is not
/// collected.
impl UploadPackWire for BoundedVecPackSink {
    type Report = PackStreamReport;

    open spec fn spec_framed(&self) -> bool {
        false
    }

    open spec fn spec_max_chunk(&self, max_chunk_bytes: usize) -> usize {
        max_chunk_bytes
    }

    open spec fn spec_wire_report(&self) -> PackStreamReport {
        self.spec_report()
    }

    open spec fn answers_response(
        &self,
        trailer_bytes: usize,
        object_count: usize,
        answer: Result<(), PackStreamError>,
    ) -> bool {
        answer is Ok
    }

    open spec fn answers_prelude(&self, answer: Result<(), PackStreamError>) -> bool {
        answer is Ok <==> self.spec_state() is Open
    }

    fn is_framed(&self) -> (framed: bool) {
        false
    }

    fn max_pack_chunk_bytes(&self, max_chunk_bytes: usize) -> (bytes: usize) {
        max_chunk_bytes
    }

    fn validate_response(&self, trailer_bytes: usize, object_count: usize) -> (result: Result<
        (),
        PackStreamError,
    >)
        ensures
            result is Ok,
    {
        Ok(())
    }

    fn write_prelude(&mut self) -> (result: Result<(), PackStreamError>)
        ensures
            *final(self) == *old(self),
            result is Ok <==> old(self).spec_state() is Open,
    {
        let state = self.state();
        if state != PackSinkState::Open {
            return Err(
                PackStreamError::InvalidState { operation: PackSinkOperation::Write, state },
            );
        }
        Ok(())
    }

    fn wire_report(&self) -> (report: PackStreamReport) {
        self.report()
    }
}

/// Counters of a served pack.
#[derive(Debug)]
pub struct CanonicalCloneServeReport<R> {
    /// Bytes verified before any response byte.
    pub verified_bytes: u64,
    /// Verification reads.
    pub verification_reads: u64,
    /// Serving reads.
    pub serving_reads: u64,
    /// Response counters.
    pub wire: R,
}

/// Chunks of at most `chunk` bytes that `total` bytes take.
pub open spec fn chunk_count(total: int, chunk: int) -> int {
    total / chunk + if total % chunk != 0 {
        1int
    } else {
        0
    }
}

/// Response bytes of a pack: the negative acknowledgement, and with framing five bytes for each
/// packet and four for the end.
pub open spec fn wire_bytes(pack_bytes: int, framed: bool, chunk: int) -> int {
    pack_bytes + 8 + if framed {
        5 * chunk_count(pack_bytes, chunk) + 4
    } else {
        0
    }
}

/// Check that a response stays within its total limit.
pub fn validate_wire_budget(
    pack_bytes: u64,
    framed: bool,
    chunk_bytes: usize,
    limits: PackStreamLimits,
) -> (result: Result<(), PackStreamError>)
    ensures
        result == if chunk_bytes == 0 {
            Err::<(), PackStreamError>(PackStreamError::InvalidLimits)
        } else if framed && 5 * chunk_count(pack_bytes as int, chunk_bytes as int) + 4 > u64::MAX {
            Err(PackStreamError::ByteOverflow)
        } else if wire_bytes(pack_bytes as int, framed, chunk_bytes as int) > u64::MAX {
            Err(PackStreamError::ByteOverflow)
        } else if wire_bytes(pack_bytes as int, framed, chunk_bytes as int)
            > limits.max_total_bytes {
            Err(PackStreamError::TotalLimit)
        } else {
            Ok(())
        },
{
    if chunk_bytes == 0 {
        return Err(PackStreamError::InvalidLimits);
    }
    let chunk: u64 = chunk_bytes as u64;
    let chunks: u128 = (pack_bytes / chunk) as u128 + if pack_bytes % chunk != 0 {
        1u128
    } else {
        0u128
    };
    proof {
        assert(0 <= pack_bytes / chunk <= pack_bytes) by (nonlinear_arith)
            requires
                chunk > 0,
                pack_bytes >= 0,
        ;
    }
    let framing: u128 = if framed {
        chunks * 5 + 4
    } else {
        0
    };
    if framing > u64::MAX as u128 {
        return Err(PackStreamError::ByteOverflow);
    }
    let physical: u128 = pack_bytes as u128 + 8 + framing;
    if physical > u64::MAX as u128 {
        return Err(PackStreamError::ByteOverflow);
    }
    if physical > limits.max_total_bytes as u128 {
        return Err(PackStreamError::TotalLimit);
    }
    Ok(())
}

/// The length of the next read.
pub open spec fn next_length(total: int, offset: int, maximum: int) -> int {
    if total - offset < maximum {
        total - offset
    } else {
        maximum
    }
}

/// Compute the length of the next read.
fn bounded_length(total: u64, offset: u64, maximum: usize) -> (length: usize)
    requires
        offset < total,
        maximum > 0,
    ensures
        length == next_length(total as int, offset as int, maximum as int),
        0 < length <= maximum,
{
    let remaining: u64 = total - offset;
    if remaining < maximum as u64 {
        remaining as usize
    } else {
        maximum
    }
}

/// Reads so far: each but the last took a full chunk.
spec fn reads_made(offset: int, total: int, reads: int, chunk: int) -> bool {
    &&& reads >= 0
    &&& offset < total ==> offset == reads * chunk
    &&& offset >= total ==> (reads - 1) * chunk < total <= reads * chunk
}

/// One more read.
proof fn lemma_read_made(offset: int, total: int, reads: int, chunk: int)
    requires
        chunk > 0,
        0 <= offset < total,
        reads_made(offset, total, reads, chunk),
    ensures
        reads_made(offset + next_length(total, offset, chunk), total, reads + 1, chunk),
{
    assert((reads + 1) * chunk == reads * chunk + chunk) by (nonlinear_arith);
    assert((reads + 1 - 1) * chunk == reads * chunk);
}

/// Reads that took full chunks are as many as there are chunks.
proof fn lemma_reads_counted(total: int, reads: int, chunk: int)
    requires
        chunk > 0,
        total >= 0,
        (reads - 1) * chunk < total <= reads * chunk,
    ensures
        reads == chunk_count(total, chunk),
{
    let q = total / chunk;
    let r = total % chunk;
    assert(total == q * chunk + r && 0 <= r < chunk) by (nonlinear_arith)
        requires
            chunk > 0,
            q == total / chunk,
            r == total % chunk,
    ;
    assert(reads == q + if r != 0 {
        1int
    } else {
        0
    }) by (nonlinear_arith)
        requires
            chunk > 0,
            total == q * chunk + r,
            0 <= r < chunk,
            (reads - 1) * chunk < total <= reads * chunk,
    ;
}

/// The source answered a range read with these bytes.
pub open spec fn piece_answered<B: CanonicalCloneByteSource>(
    source: B,
    locator: CanonicalCloneLocator,
    offset: int,
    piece: Vec<u8>,
) -> bool {
    &&& 0 <= offset <= u64::MAX
    &&& piece@.len() > 0
    &&& source.range_answered(locator, offset as u64, piece@.len() as usize, Ok(Some(piece)))
}

/// The bytes are what the source answered, range after range.
pub open spec fn pieces_answered<B: CanonicalCloneByteSource>(
    source: B,
    locator: CanonicalCloneLocator,
    bytes: Seq<u8>,
) -> bool
    decreases bytes.len(),
{
    bytes.len() == 0 || exists|at: int, piece: Vec<u8>|
        0 <= at < bytes.len() && bytes.skip(at) == piece@ && pieces_answered(
            source,
            locator,
            bytes.take(at),
        ) && #[trigger] piece_answered(source, locator, at, piece)
}

/// One more answered range extends the answered bytes.
proof fn lemma_piece_answered<B: CanonicalCloneByteSource>(
    source: B,
    locator: CanonicalCloneLocator,
    bytes: Seq<u8>,
    piece: Vec<u8>,
)
    requires
        pieces_answered(source, locator, bytes),
        piece_answered(source, locator, bytes.len() as int, piece),
    ensures
        pieces_answered(source, locator, bytes + piece@),
{
    let more = bytes + piece@;
    assert(more.take(bytes.len() as int) =~= bytes);
    assert(more.skip(bytes.len() as int) =~= piece@);
}

/// A complete read of the source, range after range, was the pack that the manifest describes.
pub open spec fn verified_once<B: CanonicalCloneByteSource>(
    source: B,
    manifest: CanonicalCloneManifest,
) -> bool {
    exists|pack: Seq<u8>| #[trigger]
        manifest_matches(manifest, pack) && pieces_answered(source, manifest.locator, pack)
}

/// A complete read of the source, range after range, was some other pack: one with another header,
/// or one whose checksums disagree.
pub open spec fn misread<B: CanonicalCloneByteSource>(
    source: B,
    manifest: CanonicalCloneManifest,
    header: bool,
) -> bool {
    exists|pack: Seq<u8>|
        pack.len() == manifest.size_bytes && (pack.take(12) != pack_header(manifest.object_count))
            == header && !manifest_matches(manifest, pack) && #[trigger] pieces_answered(
            source,
            manifest.locator,
            pack,
        )
}

/// Why cancellation checks stop a transfer of this many bytes that started with `checks` made.
pub open spec fn transfer_stopped<P: CancellationProbe>(
    checks: int,
    size_bytes: int,
    chunk: int,
    max_observation: int,
    error: PackStreamError,
) -> bool {
    ||| error == PackStreamError::Cancelled && P::signals(true)
    ||| error == PackStreamError::ByteOverflow && checks + 3 * size_bytes >= u64::MAX
    ||| error == PackStreamError::ChunkTooLarge && chunk > max_observation
}

/// Read a cached pack in bounded ranges and check it completely.
fn verify_pack<B: CanonicalCloneByteSource, P: CancellationProbe>(
    source: &B,
    manifest: &CanonicalCloneManifest,
    range_bytes: usize,
    gate: &mut CancellationGate<P>,
) -> (result: Result<u64, CanonicalCloneServeError<B::Error>>)
    requires
        old(gate).wf(),
        range_bytes > 0,
        manifest.size_bytes >= 12 + manifest.hash_algo.spec_len(),
    ensures
        final(gate).wf(),
        final(gate).same_limits(*old(gate)),
        match result {
            Ok(reads) => {
                &&& verified_once(*source, *manifest)
                &&& P::signals(false)
                &&& reads == chunk_count(manifest.size_bytes as int, range_bytes as int)
                &&& final(gate).spec_report().checks <= old(gate).spec_report().checks + 3
                    * manifest.size_bytes
            },
            Err(CanonicalCloneServeError::Data(error)) => data_explained(*source, *manifest, error),
            Err(CanonicalCloneServeError::Stream(error)) => transfer_stopped::<P>(
                old(gate).spec_report().checks as int,
                manifest.size_bytes as int,
                range_bytes as int,
                old(gate).spec_max_observation() as int,
                error,
            ),
        },
{
    let mut verifier = match PackVerifier::new::<B::Error>(manifest) {
        Ok(verifier) => verifier,
        Err(error) => {
            return Err(CanonicalCloneServeError::Data(error));
        },
    };
    let mut offset: u64 = 0;
    let mut reads: u64 = 0;
    while offset < manifest.size_bytes
        invariant
            gate.wf(),
            gate.same_limits(*old(gate)),
            range_bytes > 0,
            12 <= manifest.size_bytes,
            verifier.wf(),
            verifier.total_bytes == manifest.size_bytes,
            verifier.hasher.spec_algo() == manifest.hash_algo,
            offset == verifier.seen().len(),
            offset <= manifest.size_bytes,
            reads <= offset,
            pieces_answered(*source, manifest.locator, verifier.seen()),
            gate.spec_report().checks <= old(gate).spec_report().checks + 3 * offset,
            offset > 0 ==> P::signals(false),
            reads_made(
                offset as int,
                manifest.size_bytes as int,
                reads as int,
                range_bytes as int,
            ),
        decreases manifest.size_bytes - offset,
    {
        let length: usize = bounded_length(manifest.size_bytes, offset, range_bytes);
        if let Err(error) = gate.check_now() {
            return Err(CanonicalCloneServeError::Stream(error));
        }
        let bytes: Vec<u8> = match source.read_range(&manifest.locator, offset, length) {
            Ok(Some(bytes)) => bytes,
            Ok(None) => {
                return Err(CanonicalCloneServeError::Data(CanonicalCloneDataError::Missing));
            },
            Err(error) => {
                return Err(CanonicalCloneServeError::Data(CanonicalCloneDataError::Source(error)));
            },
        };
        if bytes.len() != length {
            return Err(CanonicalCloneServeError::Data(CanonicalCloneDataError::InvalidRange));
        }
        if let Err(error) = gate.check_now() {
            return Err(CanonicalCloneServeError::Stream(error));
        }
        if let Err(error) = gate.observe_bytes(length as u64) {
            return Err(CanonicalCloneServeError::Stream(error));
        }
        let ghost seen = verifier.seen();
        if let Err(error) = verifier.update::<B::Error>(bytes.as_slice()) {
            return Err(CanonicalCloneServeError::Data(error));
        }
        proof {
            assert(piece_answered(*source, manifest.locator, offset as int, bytes));
            lemma_piece_answered(*source, manifest.locator, seen, bytes);
            lemma_read_made(
                offset as int,
                manifest.size_bytes as int,
                reads as int,
                range_bytes as int,
            );
        }
        offset = offset + length as u64;
        reads = reads + 1;
    }
    let ghost pack = verifier.seen();
    if let Err(error) = verifier.finish::<B::Error>(manifest) {
        return Err(CanonicalCloneServeError::Data(error));
    }
    proof {
        assert(manifest_matches(*manifest, pack));
        lemma_reads_counted(manifest.size_bytes as int, reads as int, range_bytes as int);
    }
    Ok(reads)
}

/// The source failed with this cause.
pub open spec fn source_failed<B: CanonicalCloneByteSource>(
    source: B,
    locator: CanonicalCloneLocator,
    cause: B::Error,
) -> bool {
    ||| source.length_answered(locator, Err(cause))
    ||| exists|offset: u64, length: usize| #[trigger]
        source.range_answered(locator, offset, length, Err(cause))
}

/// The source had no bytes.
pub open spec fn source_lacking<B: CanonicalCloneByteSource>(
    source: B,
    locator: CanonicalCloneLocator,
) -> bool {
    ||| source.length_answered(locator, Ok(None))
    ||| exists|offset: u64, length: usize| #[trigger]
        source.range_answered(locator, offset, length, Ok(None))
}

/// The source gave a range of another length.
pub open spec fn source_short<B: CanonicalCloneByteSource>(
    source: B,
    locator: CanonicalCloneLocator,
) -> bool {
    exists|offset: u64, length: usize, bytes: Vec<u8>| #[trigger]
        source.range_answered(locator, offset, length, Ok(Some(bytes))) && bytes@.len() != length
}

/// What the source answered explains a data failure.
pub open spec fn data_explained<B: CanonicalCloneByteSource>(
    source: B,
    manifest: CanonicalCloneManifest,
    error: CanonicalCloneDataError<B::Error>,
) -> bool {
    match error {
        CanonicalCloneDataError::Source(cause) => source_failed(source, manifest.locator, cause),
        CanonicalCloneDataError::Missing => source_lacking(source, manifest.locator),
        CanonicalCloneDataError::InvalidRange => source_short(source, manifest.locator),
        CanonicalCloneDataError::LengthMismatch => exists|length: u64| #[trigger]
            source.length_answered(manifest.locator, Ok(Some(length))) && length
                != manifest.size_bytes,
        CanonicalCloneDataError::InvalidHeader => misread(source, manifest, true),
        CanonicalCloneDataError::ChecksumMismatch => misread(source, manifest, false),
        CanonicalCloneDataError::Ineligible | CanonicalCloneDataError::ByteOverflow => false,
    }
}

/// What the wire answered explains a failure of its own: it refused the acknowledgement, a chunk
/// or the end.
pub open spec fn wire_refused<W: UploadPackWire>(before: W, error: PackStreamError) -> bool {
    ||| before.answers_prelude(Err(error))
    ||| exists|sink: W, bytes: Seq<u8>| #[trigger]
        sink.answers_write(bytes, Err(error)) && before.accepted().is_prefix_of(sink.accepted())
    ||| exists|sink: W| #[trigger]
        sink.answers_finish(Err(error)) && before.accepted().is_prefix_of(sink.accepted())
}

/// Why a stream cannot be started.
pub open spec fn start_refused<W: UploadPackWire>(
    manifest: CanonicalCloneManifest,
    options: CanonicalCloneServeOptions,
    wire: W,
    error: PackStreamError,
) -> bool {
    let chunk = serving_chunk(wire, options);
    let count = chunk_count(manifest.size_bytes as int, chunk as int);
    let total = wire_bytes(manifest.size_bytes as int, wire.spec_framed(), chunk as int);
    ||| wire.answers_response(
        manifest.hash_algo.spec_len() as usize,
        manifest.object_count as usize,
        Err(error),
    )
    ||| error == PackStreamError::InvalidLimits && chunk == 0
    ||| error == PackStreamError::ByteOverflow && (total > u64::MAX || wire.spec_framed() && 5
        * count + 4 > u64::MAX)
    ||| error == PackStreamError::TotalLimit && total > options.stream_limits.max_total_bytes
}

/// Why serving was refused or broken off, and what the response has seen of it: nothing before the
/// whole pack was read and checked once. A response that was begun is aborted for the backend where
/// the data failed, and as cancelled where a check stopped it.
pub open spec fn serve_failed<
    B: CanonicalCloneByteSource,
    W: UploadPackWire,
    P: CancellationProbe,
>(
    source: B,
    manifest: CanonicalCloneManifest,
    generation: CanonicalCloneGeneration,
    options: CanonicalCloneServeOptions,
    before: W,
    after: W,
    error: CanonicalCloneServeError<B::Error>,
) -> bool {
    if manifest.fault() is Some || manifest.generation != generation || !manifest.eligible() {
        error == CanonicalCloneServeError::<B::Error>::Data(CanonicalCloneDataError::Ineligible)
            && after == before
    } else if !options.valid() {
        error == CanonicalCloneServeError::<B::Error>::Stream(PackStreamError::InvalidLimits)
            && after == before
    } else {
        &&& after == before || (verified_once(source, manifest) && after.spec_state() !is Open)
        &&& match error {
            CanonicalCloneServeError::Data(error) => {
                &&& data_explained(source, manifest, error)
                &&& after == before || after.spec_state() == PackSinkState::Aborted(
                    PackAbortReason::BackendFailure,
                )
            },
            CanonicalCloneServeError::Stream(error) => {
                ||| after == before && start_refused(manifest, options, before, error)
                ||| transfer_stopped::<P>(
                    2 + 3 * manifest.size_bytes,
                    manifest.size_bytes as int,
                    options.range_bytes as int,
                    options.stream_limits.max_chunk_bytes as int,
                    error,
                ) && (after == before || after.spec_state() == PackSinkState::Aborted(
                    PackAbortReason::Cancelled,
                ))
                ||| verified_once(source, manifest) && wire_refused(before, error)
            },
        }
    }
}

/// The most bytes that one serving read takes.
pub open spec fn serving_chunk<W: UploadPackWire>(
    wire: W,
    options: CanonicalCloneServeOptions,
) -> usize {
    let packet = wire.spec_max_chunk(options.stream_limits.max_chunk_bytes);
    if packet < options.range_bytes {
        packet
    } else {
        options.range_bytes
    }
}

/// The whole pack was served.
pub open spec fn serve_completed<W: UploadPackWire>(
    manifest: CanonicalCloneManifest,
    before: W,
    after: W,
) -> bool {
    &&& after.spec_state() is Finished
    &&& before.accepted().len() <= after.accepted().len()
    &&& after.accepted().take(before.accepted().len() as int) == before.accepted()
    &&& manifest_matches(manifest, after.accepted().skip(before.accepted().len() as int))
}

/// Serve the pack that was verified, checking it once more.
fn serve_pack<B: CanonicalCloneByteSource, W: UploadPackWire, P: CancellationProbe>(
    source: &B,
    manifest: &CanonicalCloneManifest,
    wire: &mut W,
    serve_chunk: usize,
    gate: &mut CancellationGate<P>,
) -> (result: Result<u64, CanonicalCloneServeError<B::Error>>)
    requires
        old(gate).wf(),
        serve_chunk > 0,
        manifest.size_bytes >= 12 + manifest.hash_algo.spec_len(),
    ensures
        match result {
            Ok(reads) => {
                &&& serve_completed(*manifest, *old(wire), *final(wire))
                &&& reads == chunk_count(manifest.size_bytes as int, serve_chunk as int)
            },
            Err(CanonicalCloneServeError::Data(error)) => {
                &&& final(wire).spec_state() == PackSinkState::Aborted(
                    PackAbortReason::BackendFailure,
                )
                &&& data_explained(*source, *manifest, error)
            },
            Err(CanonicalCloneServeError::Stream(error)) => {
                ||| final(wire).spec_state() !is Open && wire_refused(*old(wire), error)
                ||| final(wire).spec_state() == PackSinkState::Aborted(PackAbortReason::Cancelled)
                    && transfer_stopped::<P>(
                    old(gate).spec_report().checks as int,
                    manifest.size_bytes as int,
                    serve_chunk as int,
                    old(gate).spec_max_observation() as int,
                    error,
                )
            },
        },
{
    let ghost start = wire.accepted();
    if let Err(error) = wire.write_prelude() {
        return Err(CanonicalCloneServeError::Stream(error));
    }
    let mut verifier = match PackVerifier::new::<B::Error>(manifest) {
        Ok(verifier) => verifier,
        Err(error) => {
            let _ = wire.abort(PackAbortReason::BackendFailure);
            return Err(CanonicalCloneServeError::Data(error));
        },
    };
    let mut offset: u64 = 0;
    let mut reads: u64 = 0;
    assert(start + verifier.seen() =~= start);
    while offset < manifest.size_bytes
        invariant
            gate.wf(),
            serve_chunk > 0,
            12 <= manifest.size_bytes,
            verifier.wf(),
            verifier.total_bytes == manifest.size_bytes,
            verifier.hasher.spec_algo() == manifest.hash_algo,
            offset == verifier.seen().len(),
            offset <= manifest.size_bytes,
            reads <= offset,
            wire.spec_state() is Open,
            wire.accepted() == start + verifier.seen(),
            start == old(wire).accepted(),
            pieces_answered(*source, manifest.locator, verifier.seen()),
            gate.spec_report().checks <= old(gate).spec_report().checks + 3 * offset,
            offset > 0 ==> P::signals(false),
            gate.same_limits(*old(gate)),
            reads_made(
                offset as int,
                manifest.size_bytes as int,
                reads as int,
                serve_chunk as int,
            ),
        decreases manifest.size_bytes - offset,
    {
        let length: usize = bounded_length(manifest.size_bytes, offset, serve_chunk);
        if let Err(error) = gate.check_now() {
            let _ = wire.abort(PackAbortReason::Cancelled);
            return Err(CanonicalCloneServeError::Stream(error));
        }
        let bytes: Vec<u8> = match source.read_range(&manifest.locator, offset, length) {
            Ok(Some(bytes)) => bytes,
            Ok(None) => {
                let _ = wire.abort(PackAbortReason::BackendFailure);
                return Err(CanonicalCloneServeError::Data(CanonicalCloneDataError::Missing));
            },
            Err(error) => {
                let _ = wire.abort(PackAbortReason::BackendFailure);
                return Err(CanonicalCloneServeError::Data(CanonicalCloneDataError::Source(error)));
            },
        };
        if bytes.len() != length {
            let _ = wire.abort(PackAbortReason::BackendFailure);
            return Err(CanonicalCloneServeError::Data(CanonicalCloneDataError::InvalidRange));
        }
        if let Err(error) = gate.check_now() {
            let _ = wire.abort(PackAbortReason::Cancelled);
            return Err(CanonicalCloneServeError::Stream(error));
        }
        if let Err(error) = gate.observe_bytes(length as u64) {
            let _ = wire.abort(PackAbortReason::Cancelled);
            return Err(CanonicalCloneServeError::Stream(error));
        }
        let ghost seen = verifier.seen();
        if let Err(error) = verifier.update::<B::Error>(bytes.as_slice()) {
            let _ = wire.abort(PackAbortReason::BackendFailure);
            return Err(CanonicalCloneServeError::Data(error));
        }
        if let Err(error) = wire.write_chunk(bytes.as_slice()) {
            assert(start.is_prefix_of(start + seen));
            return Err(CanonicalCloneServeError::Stream(error));
        }
        proof {
            assert((start + seen) + bytes@ =~= start + (seen + bytes@));
            assert(piece_answered(*source, manifest.locator, offset as int, bytes));
            lemma_piece_answered(*source, manifest.locator, seen, bytes);
            lemma_read_made(
                offset as int,
                manifest.size_bytes as int,
                reads as int,
                serve_chunk as int,
            );
        }
        offset = offset + length as u64;
        reads = reads + 1;
    }
    let ghost pack = verifier.seen();
    if let Err(error) = verifier.finish::<B::Error>(manifest) {
        let _ = wire.abort(PackAbortReason::BackendFailure);
        return Err(CanonicalCloneServeError::Data(error));
    }
    assert(start.is_prefix_of(start + pack));
    if let Err(error) = wire.finish() {
        return Err(CanonicalCloneServeError::Stream(error));
    }
    proof {
        assert(wire.accepted().take(start.len() as int) =~= start);
        assert(wire.accepted().skip(start.len() as int) =~= pack);
        lemma_reads_counted(manifest.size_bytes as int, reads as int, serve_chunk as int);
    }
    Ok(reads)
}

/// Verify a cached PACK completely, then serve it in bounded chunks.
///
/// No response byte is written until the first pass has checked length, header, object count, body
/// digest and trailing checksum. A failure after that aborts the response.
pub fn serve_canonical_clone<B: CanonicalCloneByteSource, W: UploadPackWire, P: CancellationProbe>(
    source: &B,
    manifest: &CanonicalCloneManifest,
    generation: CanonicalCloneGeneration,
    wire: &mut W,
    options: CanonicalCloneServeOptions,
    cancellation: P,
) -> (result: Result<CanonicalCloneServeReport<W::Report>, CanonicalCloneServeError<B::Error>>)
    ensures
        match result {
            Ok(report) => {
                &&& manifest.fault() is None
                &&& manifest.generation == generation
                &&& manifest.eligible()
                &&& options.valid()
                &&& verified_once(*source, *manifest)
                &&& P::signals(false)
                &&& serve_completed(*manifest, *old(wire), *final(wire))
                &&& report.verified_bytes == manifest.size_bytes
                &&& report.verification_reads == chunk_count(
                    manifest.size_bytes as int,
                    options.range_bytes as int,
                )
                &&& report.serving_reads == chunk_count(
                    manifest.size_bytes as int,
                    serving_chunk(*old(wire), options) as int,
                )
                &&& report.serving_reads >= report.verification_reads
                &&& report.wire == final(wire).spec_wire_report()
            },
            Err(error) => serve_failed::<B, W, P>(
                *source,
                *manifest,
                generation,
                options,
                *old(wire),
                *final(wire),
                error,
            ),
        },
{
    if manifest.validate().is_err() {
        return Err(CanonicalCloneServeError::Data(CanonicalCloneDataError::Ineligible));
    }
    if manifest.generation != generation || !manifest.is_eligible() {
        return Err(CanonicalCloneServeError::Data(CanonicalCloneDataError::Ineligible));
    }
    if let Err(error) = options.validate() {
        return Err(CanonicalCloneServeError::Stream(error));
    }
    let mut gate = match CancellationGate::new(cancellation, options.stream_limits) {
        Ok(gate) => gate,
        Err(error) => {
            return Err(CanonicalCloneServeError::Stream(error));
        },
    };
    if let Err(error) = gate.check_now() {
        return Err(CanonicalCloneServeError::Stream(error));
    }
    let source_length: u64 = match source.content_length(&manifest.locator) {
        Ok(Some(length)) => length,
        Ok(None) => {
            return Err(CanonicalCloneServeError::Data(CanonicalCloneDataError::Missing));
        },
        Err(error) => {
            return Err(CanonicalCloneServeError::Data(CanonicalCloneDataError::Source(error)));
        },
    };
    if source_length != manifest.size_bytes {
        return Err(CanonicalCloneServeError::Data(CanonicalCloneDataError::LengthMismatch));
    }
    if let Err(error) = wire.validate_response(
        manifest.hash_algo.len(),
        manifest.object_count as usize,
    ) {
        return Err(CanonicalCloneServeError::Stream(error));
    }
    let packet: usize = wire.max_pack_chunk_bytes(options.stream_limits.max_chunk_bytes);
    let serve_chunk: usize = if packet < options.range_bytes {
        packet
    } else {
        options.range_bytes
    };
    if serve_chunk == 0 {
        return Err(CanonicalCloneServeError::Stream(PackStreamError::InvalidLimits));
    }
    if let Err(error) = validate_wire_budget(
        manifest.size_bytes,
        wire.is_framed(),
        serve_chunk,
        options.stream_limits,
    ) {
        return Err(CanonicalCloneServeError::Stream(error));
    }
    let verification_reads: u64 = verify_pack(source, manifest, options.range_bytes, &mut gate)?;
    if let Err(error) = gate.check_now() {
        return Err(CanonicalCloneServeError::Stream(error));
    }
    let serving_reads: u64 = serve_pack(source, manifest, wire, serve_chunk, &mut gate)?;
    proof {
        lemma_more_chunks(
            manifest.size_bytes as int,
            options.range_bytes as int,
            serve_chunk as int,
        );
    }
    Ok(
        CanonicalCloneServeReport {
            verified_bytes: manifest.size_bytes,
            verification_reads,
            serving_reads,
            wire: wire.wire_report(),
        },
    )
}

/// Smaller chunks are no fewer.
proof fn lemma_more_chunks(total: int, large: int, small: int)
    requires
        0 < small <= large,
        total >= 0,
    ensures
        chunk_count(total, large) <= chunk_count(total, small),
{
    let a = chunk_count(total, large);
    let b = chunk_count(total, small);
    lemma_chunks_cover(total, large);
    lemma_chunks_cover(total, small);
    assert(a <= b) by (nonlinear_arith)
        requires
            0 < small <= large,
            total <= b * small,
            a > 0 ==> (a - 1) * large < total,
            b >= 0,
    ;
}

/// The chunks cover the total, and one fewer would not.
proof fn lemma_chunks_cover(total: int, chunk: int)
    requires
        chunk > 0,
        total >= 0,
    ensures
        ({
            let n = chunk_count(total, chunk);
            &&& n >= 0
            &&& total <= n * chunk
            &&& n > 0 ==> (n - 1) * chunk < total
        }),
{
    let q = total / chunk;
    let r = total % chunk;
    assert(total == q * chunk + r && 0 <= r < chunk && q >= 0) by (nonlinear_arith)
        requires
            chunk > 0,
            total >= 0,
            q == total / chunk,
            r == total % chunk,
    ;
    assert((q + 1) * chunk == q * chunk + chunk) by (nonlinear_arith);
    assert((q - 1) * chunk == q * chunk - chunk) by (nonlinear_arith);
}

} // verus!
