//! Streaming SHA-1, SHA-256 and CRC-32, with the hash functions themselves left abstract.

use crate::object::{id_from_digest, object_header, object_header_bytes, HashAlgo, ObjectId, ObjectKind};
use vstd::prelude::*;

verus! {

/// Declares the SHA-1 hasher of the `sha1` crate as an opaque value.
#[verifier::external_type_specification]
#[verifier::external_body]
pub struct ExternalSha1(sha1::Sha1);

/// Declares the SHA-256 hasher of the `sha2` crate as an opaque value.
#[verifier::external_type_specification]
#[verifier::external_body]
pub struct ExternalSha256(sha2::Sha256);

/// Declares the CRC-32 hasher of the `crc32fast` crate as an opaque value.
#[verifier::external_type_specification]
#[verifier::external_body]
pub struct ExternalCrc32(crc32fast::Hasher);

/// The bytes that a SHA-1 hasher has collected so far.
pub uninterp spec fn sha1_absorbed(hasher: sha1::Sha1) -> Seq<u8>;

/// The bytes that a SHA-256 hasher has collected so far.
pub uninterp spec fn sha256_absorbed(hasher: sha2::Sha256) -> Seq<u8>;

/// The bytes that a CRC-32 hasher has collected so far.
pub uninterp spec fn crc32_absorbed(hasher: crc32fast::Hasher) -> Seq<u8>;

/// The SHA-1 digest of a byte sequence.
pub uninterp spec fn sha1_digest(data: Seq<u8>) -> Seq<u8>;

/// The SHA-256 digest of a byte sequence.
pub uninterp spec fn sha256_digest(data: Seq<u8>) -> Seq<u8>;

/// The CRC-32 checksum of a byte sequence.
pub uninterp spec fn crc32_of(data: Seq<u8>) -> u32;

/// Calls `Digest::new` of `sha1::Sha1`: a new hasher has collected nothing.
#[verifier::external_body]
fn sha1_new() -> (hasher: sha1::Sha1)
    ensures
        sha1_absorbed(hasher) == Seq::<u8>::empty(),
{
    <sha1::Sha1 as sha1::Digest>::new()
}

/// Calls `Digest::update` of `sha1::Sha1`: the bytes are appended to what was collected.
#[verifier::external_body]
fn sha1_update(hasher: &mut sha1::Sha1, bytes: &[u8])
    ensures
        sha1_absorbed(*final(hasher)) == sha1_absorbed(*old(hasher)) + bytes@,
{
    sha1::Digest::update(hasher, bytes)
}

/// Calls `Digest::finalize` of `sha1::Sha1`: the 20-byte digest of what was collected.
#[verifier::external_body]
fn sha1_finalize(hasher: sha1::Sha1) -> (digest: Vec<u8>)
    ensures
        digest@ == sha1_digest(sha1_absorbed(hasher)),
        digest@.len() == 20,
{
    sha1::Digest::finalize(hasher).to_vec()
}

/// Calls `Digest::new` of `sha2::Sha256`: a new hasher has collected nothing.
#[verifier::external_body]
fn sha256_new() -> (hasher: sha2::Sha256)
    ensures
        sha256_absorbed(hasher) == Seq::<u8>::empty(),
{
    <sha2::Sha256 as sha2::Digest>::new()
}

/// Calls `Digest::update` of `sha2::Sha256`: the bytes are appended to what was collected.
#[verifier::external_body]
fn sha256_update(hasher: &mut sha2::Sha256, bytes: &[u8])
    ensures
        sha256_absorbed(*final(hasher)) == sha256_absorbed(*old(hasher)) + bytes@,
{
    sha2::Digest::update(hasher, bytes)
}

/// Calls `Digest::finalize` of `sha2::Sha256`: the 32-byte digest of what was collected.
#[verifier::external_body]
fn sha256_finalize(hasher: sha2::Sha256) -> (digest: Vec<u8>)
    ensures
        digest@ == sha256_digest(sha256_absorbed(hasher)),
        digest@.len() == 32,
{
    sha2::Digest::finalize(hasher).to_vec()
}

/// Calls `Hasher::new` of `crc32fast`: a new hasher has collected nothing.
#[verifier::external_body]
fn crc32_new() -> (hasher: crc32fast::Hasher)
    ensures
        crc32_absorbed(hasher) == Seq::<u8>::empty(),
{
    crc32fast::Hasher::new()
}

/// Calls `Hasher::update` of `crc32fast`: the bytes are appended to what was collected.
#[verifier::external_body]
fn crc32_update(hasher: &mut crc32fast::Hasher, bytes: &[u8])
    ensures
        crc32_absorbed(*final(hasher)) == crc32_absorbed(*old(hasher)) + bytes@,
{
    hasher.update(bytes)
}

/// Calls `Hasher::finalize` of `crc32fast`: the checksum of what was collected.
#[verifier::external_body]
fn crc32_finalize(hasher: crc32fast::Hasher) -> (checksum: u32)
    ensures
        checksum == crc32_of(crc32_absorbed(hasher)),
{
    hasher.finalize()
}

/// The digest of `data` under `algo`.
pub open spec fn digest_of(algo: HashAlgo, data: Seq<u8>) -> Seq<u8> {
    match algo {
        HashAlgo::Sha1 => sha1_digest(data),
        HashAlgo::Sha256 => sha256_digest(data),
    }
}

/// The digest of `data` under `algo` as an identity.
pub open spec fn hashed_id(algo: HashAlgo, data: Seq<u8>) -> ObjectId {
    id_from_digest(algo, digest_of(algo, data))
}

/// The canonical identity of an object: the digest of its header and payload.
pub open spec fn canonical_id(algo: HashAlgo, kind: ObjectKind, payload: Seq<u8>) -> ObjectId {
    hashed_id(algo, object_header(kind, payload.len()) + payload)
}

/// Incremental digest of one repository hash algorithm.
pub enum StreamHasher {
    /// SHA-1 state.
    Sha1(sha1::Sha1),
    /// SHA-256 state.
    Sha256(sha2::Sha256),
}

impl StreamHasher {
    /// The bytes collected so far.
    pub open spec fn absorbed(self) -> Seq<u8> {
        match self {
            StreamHasher::Sha1(hasher) => sha1_absorbed(hasher),
            StreamHasher::Sha256(hasher) => sha256_absorbed(hasher),
        }
    }

    /// The algorithm being computed.
    pub open spec fn spec_algo(self) -> HashAlgo {
        match self {
            StreamHasher::Sha1(_) => HashAlgo::Sha1,
            StreamHasher::Sha256(_) => HashAlgo::Sha256,
        }
    }

    /// Start an empty digest.
    pub fn new(algo: HashAlgo) -> (hasher: StreamHasher)
        ensures
            hasher.spec_algo() == algo,
            hasher.absorbed() == Seq::<u8>::empty(),
    {
        match algo {
            HashAlgo::Sha1 => StreamHasher::Sha1(sha1_new()),
            HashAlgo::Sha256 => StreamHasher::Sha256(sha256_new()),
        }
    }

    /// Collect more bytes.
    pub fn update(&mut self, bytes: &[u8])
        ensures
            final(self).spec_algo() == old(self).spec_algo(),
            final(self).absorbed() == old(self).absorbed() + bytes@,
    {
        match self {
            StreamHasher::Sha1(hasher) => sha1_update(hasher, bytes),
            StreamHasher::Sha256(hasher) => sha256_update(hasher, bytes),
        }
    }

    /// Return the digest of everything collected as an identity.
    pub fn finish(self) -> (id: ObjectId)
        ensures
            id == hashed_id(self.spec_algo(), self.absorbed()),
            id.spec_algo() == self.spec_algo(),
            id@ == digest_of(self.spec_algo(), self.absorbed()),
    {
        let digest: Vec<u8> = match self {
            StreamHasher::Sha1(hasher) => sha1_finalize(hasher),
            StreamHasher::Sha256(hasher) => sha256_finalize(hasher),
        };
        let parsed = ObjectId::from_bytes(digest.as_slice());
        match parsed {
            Some(id) => id,
            None => ObjectId::Sha1 { high: 0, tail: 0 },
        }
    }
}

/// Incremental CRC-32 of one packed entry.
pub struct EntryChecksum {
    hasher: crc32fast::Hasher,
}

impl EntryChecksum {
    /// The bytes collected so far.
    pub closed spec fn absorbed(self) -> Seq<u8> {
        crc32_absorbed(self.hasher)
    }

    /// Start an empty checksum.
    pub fn new() -> (checksum: EntryChecksum)
        ensures
            checksum.absorbed() == Seq::<u8>::empty(),
    {
        EntryChecksum { hasher: crc32_new() }
    }

    /// Collect more bytes.
    pub fn update(&mut self, bytes: &[u8])
        ensures
            final(self).absorbed() == old(self).absorbed() + bytes@,
    {
        crc32_update(&mut self.hasher, bytes);
    }

    /// Return the checksum of everything collected.
    pub fn finish(self) -> (checksum: u32)
        ensures
            checksum == crc32_of(self.absorbed()),
    {
        crc32_finalize(self.hasher)
    }
}

/// Hash one byte string.
pub fn hash_bytes(algo: HashAlgo, data: &[u8]) -> (id: ObjectId)
    ensures
        id == hashed_id(algo, data@),
        id.spec_algo() == algo,
        id@ == digest_of(algo, data@),
{
    let mut hasher = StreamHasher::new(algo);
    hasher.update(data);
    assert(Seq::<u8>::empty() + data@ =~= data@);
    hasher.finish()
}

/// Compute the canonical identity of a whole object.
pub fn object_id(kind: ObjectKind, data: &[u8], algo: HashAlgo) -> (id: ObjectId)
    ensures
        id == canonical_id(algo, kind, data@),
        id.spec_algo() == algo,
{
    let header: Vec<u8> = object_header_bytes(kind, data.len() as u64);
    let mut hasher = StreamHasher::new(algo);
    hasher.update(header.as_slice());
    hasher.update(data);
    assert(Seq::<u8>::empty() + header@ + data@ =~= object_header(kind, data@.len()) + data@);
    hasher.finish()
}

} // verus!
