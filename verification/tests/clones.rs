use grit_protocol::canonical_clone::{
    CanonicalCloneClaimResult, CanonicalCloneError, CanonicalCloneFlightState,
    CanonicalCloneGeneration, CanonicalCloneKey, CanonicalCloneLocator, CanonicalCloneManifest,
    CanonicalCloneManifestState, CanonicalCloneMutationResult, CanonicalCloneScope,
    CanonicalCloneShape, CanonicalCloneSingleflight, CanonicalCloneStore, CanonicalCloneStoreCas,
    CanonicalCloneToken, CanonicalCloneVerification, ClonePackPurpose, UploadPackCapability,
    UploadPackRequest,
};
use grit_protocol::canonical_clone_serve::{
    classify_flight, lookup_canonical_clone, serve_canonical_clone, validate_wire_budget,
    CanonicalCloneByteSource, CanonicalCloneDataError, CanonicalCloneLookup,
    CanonicalCloneServeError, CanonicalCloneServeOptions,
};
use grit_protocol::clock::Timestamp;
use grit_protocol::digest::hash_bytes;
use grit_protocol::object::{HashAlgo, ObjectId, RepositoryId, TenantId};
use grit_protocol::pack_stream::{
    BoundedVecPackSink, NeverCancel, PackCancellationToken, PackChunkSink, PackStreamError,
    PackStreamLimits,
};

fn oid(byte: u8) -> ObjectId {
    ObjectId::from_bytes(&[byte; 20]).unwrap()
}

fn at(unix_nanos: i128) -> Timestamp {
    Timestamp { unix_nanos }
}

fn scope() -> CanonicalCloneScope {
    CanonicalCloneScope {
        tenant: TenantId { value: String::from("acme") },
        repository: RepositoryId { value: String::from("tools") },
    }
}

fn generation(refs: u64) -> CanonicalCloneGeneration {
    CanonicalCloneGeneration { incarnation: 1, repository: 2, refs }
}

fn request(wants: Vec<ObjectId>) -> UploadPackRequest {
    UploadPackRequest { wants, haves: Vec::new(), capabilities: Vec::new() }
}

fn shape(wants: Vec<ObjectId>, refs: u64) -> CanonicalCloneShape {
    CanonicalCloneShape::from_request(&request(wants), scope(), generation(refs), HashAlgo::Sha1)
        .unwrap()
}

fn key(refs: u64) -> CanonicalCloneKey {
    shape(vec![oid(1)], refs).key().unwrap()
}

fn token(name: &str) -> CanonicalCloneToken {
    CanonicalCloneToken::new(String::from(name)).unwrap()
}

fn pack(payload: &[u8]) -> Vec<u8> {
    let mut bytes = b"PACK\0\0\0\x02\0\0\0\x01".to_vec();
    bytes.extend_from_slice(payload);
    let digest = hash_bytes(HashAlgo::Sha1, &bytes);
    bytes.extend_from_slice(&digest.to_bytes());
    bytes
}

fn manifest(bytes: &[u8], refs: u64) -> CanonicalCloneManifest {
    let shape = shape(vec![oid(1)], refs);
    CanonicalCloneManifest {
        purpose: ClonePackPurpose::Canonical,
        key: shape.key().unwrap(),
        shape,
        generation: generation(refs),
        pack_checksum: ObjectId::from_bytes(&bytes[bytes.len() - 20..]).unwrap(),
        hash_algo: HashAlgo::Sha1,
        object_count: 1,
        size_bytes: bytes.len() as u64,
        created_at: at(10),
        locator: CanonicalCloneLocator::new(String::from("packs/one")).unwrap(),
        verification: CanonicalCloneVerification::Verified,
        state: CanonicalCloneManifestState::Ready,
        retire_after: None,
    }
}

#[test]
fn equal_requests_share_a_key() {
    let one = shape(vec![oid(2), oid(1), oid(2)], 3);
    let two = shape(vec![oid(1), oid(2)], 3);
    assert_eq!(one.wants, vec![oid(1), oid(2)]);
    assert_eq!(one.key().unwrap().as_bytes(), two.key().unwrap().as_bytes());
    assert_eq!(one.key().unwrap().as_bytes().len(), 32);
    assert_ne!(one.key().unwrap().as_bytes(), shape(vec![oid(1)], 3).key().unwrap().as_bytes());
    assert_ne!(one.key().unwrap().as_bytes(), shape(vec![oid(1), oid(2)], 4).key().unwrap().as_bytes());
}

#[test]
fn capabilities_decide_the_shape() {
    let mut asked = request(vec![oid(1)]);
    asked.capabilities = vec![
        UploadPackCapability::SideBand64k,
        UploadPackCapability::OfsDelta,
        UploadPackCapability::IncludeTag,
        UploadPackCapability::ObjectFormat(HashAlgo::Sha1),
    ];
    let shape =
        CanonicalCloneShape::from_request(&asked, scope(), generation(3), HashAlgo::Sha1).unwrap();
    assert!(shape.include_tag);
    assert!(shape.representation.ofs_delta);
    assert!(!shape.representation.thin_pack);
}

#[test]
fn requests_that_cannot_be_shared_are_refused() {
    let refuse = |request: UploadPackRequest, generation: CanonicalCloneGeneration| {
        CanonicalCloneShape::from_request(&request, scope(), generation, HashAlgo::Sha1).err()
    };
    assert_eq!(refuse(request(Vec::new()), generation(1)), Some(CanonicalCloneError::EmptyWants));
    let null = ObjectId::null(HashAlgo::Sha1);
    assert_eq!(refuse(request(vec![null]), generation(1)), Some(CanonicalCloneError::NullWant));
    let mut have = request(vec![oid(1)]);
    have.haves.push(oid(2));
    assert_eq!(refuse(have, generation(1)), Some(CanonicalCloneError::HavesUnsupported));
    let none = CanonicalCloneGeneration { incarnation: 0, repository: 1, refs: 1 };
    assert_eq!(refuse(request(vec![oid(1)]), none), Some(CanonicalCloneError::InvalidGeneration));
    let wide = ObjectId::from_bytes(&[1; 32]).unwrap();
    assert_eq!(
        refuse(request(vec![wide]), generation(1)),
        Some(CanonicalCloneError::ObjectFormatMismatch)
    );
    let mut other = request(vec![oid(1)]);
    other.capabilities.push(UploadPackCapability::Other(String::from("filter")));
    assert_eq!(refuse(other, generation(1)), Some(CanonicalCloneError::UnsupportedCapability));
    let mut twice = request(vec![oid(1)]);
    twice.capabilities.push(UploadPackCapability::ObjectFormat(HashAlgo::Sha1));
    twice.capabilities.push(UploadPackCapability::ObjectFormat(HashAlgo::Sha1));
    assert_eq!(refuse(twice, generation(1)), Some(CanonicalCloneError::AmbiguousObjectFormat));
    let many = vec![oid(1); 65_537];
    assert_eq!(refuse(request(many), generation(1)), Some(CanonicalCloneError::TooManyWants));
}

#[test]
fn builders_are_fenced() {
    let mut flight = CanonicalCloneSingleflight::new(key(3), generation(3)).unwrap();
    let first = token("one");
    let second = token("two");
    assert_eq!(
        flight.claim(first.clone(), 1, at(10), at(20)),
        Ok(CanonicalCloneClaimResult::Claimed)
    );
    assert_eq!(
        flight.claim(second.clone(), 2, at(15), at(30)),
        Ok(CanonicalCloneClaimResult::Busy)
    );
    assert_eq!(
        flight.renew(&first, 1, at(16), at(25)),
        Ok(CanonicalCloneMutationResult::Applied)
    );
    assert_eq!(
        flight.claim(second.clone(), 1, at(25), at(40)),
        Ok(CanonicalCloneClaimResult::Stale)
    );
    assert_eq!(
        flight.claim(second.clone(), 2, at(25), at(40)),
        Ok(CanonicalCloneClaimResult::Claimed)
    );
    assert_eq!(
        flight.fail(&first, 1, at(26)),
        Ok(CanonicalCloneMutationResult::Stale)
    );
    assert_eq!(
        flight.fail(&second, 2, at(26)),
        Ok(CanonicalCloneMutationResult::Applied)
    );
    assert!(matches!(flight.state(), CanonicalCloneFlightState::Failed { last_fencing: 2, .. }));
    assert_eq!(
        flight.claim(first.clone(), 3, at(5), at(40)),
        Err(CanonicalCloneError::NonMonotonicTime)
    );
    assert_eq!(
        flight.claim(first.clone(), 0, at(30), at(40)),
        Err(CanonicalCloneError::InvalidLease)
    );
    assert_eq!(flight.last_observed_at(), Some(at(26)));
}

#[test]
fn publication_is_exact_and_invalidation_is_final() {
    let bytes = pack(b"x");
    let mut flight = CanonicalCloneSingleflight::new(key(3), generation(3)).unwrap();
    let builder = token("one");
    flight.claim(builder.clone(), 1, at(5), at(50)).unwrap();
    assert_eq!(
        flight.publish(&builder, 1, at(10), manifest(&bytes, 4)),
        Ok(CanonicalCloneMutationResult::Stale)
    );
    assert_eq!(
        flight.publish(&builder, 1, at(10), manifest(&bytes, 3)),
        Ok(CanonicalCloneMutationResult::Applied)
    );
    assert_eq!(
        flight.claim(builder.clone(), 9, at(11), at(60)),
        Ok(CanonicalCloneClaimResult::Published)
    );
    assert_eq!(
        flight.invalidate(generation(3), at(12), at(90)),
        Ok(CanonicalCloneMutationResult::Applied)
    );
    assert_eq!(
        flight.claim(builder.clone(), 9, at(13), at(60)),
        Ok(CanonicalCloneClaimResult::Ineligible)
    );
    match flight.into_state() {
        CanonicalCloneFlightState::Invalidated { invalidated_at, retired } => {
            assert_eq!(invalidated_at, at(12));
            let retired = retired.unwrap();
            assert_eq!(retired.state, CanonicalCloneManifestState::Retired);
            assert_eq!(retired.retire_after, Some(at(90)));
            assert!(!retired.is_eligible());
        }
        _ => panic!("the flight is invalidated"),
    }
}

#[test]
fn manifests_are_validated() {
    let bytes = pack(b"x");
    assert!(manifest(&bytes, 3).validate().is_ok());
    assert!(manifest(&bytes, 3).is_eligible());
    let mut unverified = manifest(&bytes, 3);
    unverified.verification = CanonicalCloneVerification::Unverified;
    assert_eq!(unverified.validate(), Err(CanonicalCloneError::InvalidManifest));
    let mut short = manifest(&bytes, 3);
    short.size_bytes = 31;
    assert_eq!(short.validate(), Err(CanonicalCloneError::InvalidManifest));
    let mut retired = manifest(&bytes, 3);
    retired.state = CanonicalCloneManifestState::Retired;
    assert_eq!(retired.validate(), Err(CanonicalCloneError::InvalidManifest));
    assert!(matches!(
        CanonicalCloneLocator::new(String::from(" ")).err(),
        Some(CanonicalCloneError::InvalidLocator)
    ));
    assert!(matches!(
        CanonicalCloneToken::new(String::new()).err(),
        Some(CanonicalCloneError::InvalidToken)
    ));
    assert_eq!(token("abc").as_str(), "abc");
    assert!(token("abc").same(&token("abc")));
}

struct Store {
    bytes: Vec<u8>,
    present: bool,
}

impl CanonicalCloneStore for Store {
    type Error = u8;

    fn load(&self, key: &CanonicalCloneKey) -> Result<Option<CanonicalCloneSingleflight>, u8> {
        if !self.present {
            return Ok(None);
        }
        let mut flight = CanonicalCloneSingleflight::new(*key, generation(3)).unwrap();
        let builder = token("one");
        flight.claim(builder.clone(), 1, at(5), at(50)).unwrap();
        flight.publish(&builder, 1, at(10), manifest(&self.bytes, 3)).unwrap();
        Ok(Some(flight))
    }

    fn compare_and_swap(
        &self,
        _key: &CanonicalCloneKey,
        _expected: Option<&CanonicalCloneSingleflight>,
        _replacement: &CanonicalCloneSingleflight,
    ) -> Result<CanonicalCloneStoreCas, u8> {
        Ok(CanonicalCloneStoreCas::Conflict)
    }
}

#[test]
fn lookup_finds_the_exact_generation() {
    let bytes = pack(b"x");
    let store = Store { bytes: bytes.clone(), present: true };
    match lookup_canonical_clone(&store, key(3), generation(3), at(20)).ok().unwrap() {
        CanonicalCloneLookup::Hit(found) => assert_eq!(found.size_bytes, bytes.len() as u64),
        _ => panic!("the pack is published"),
    }
    let absent = Store { bytes, present: false };
    assert!(matches!(
        lookup_canonical_clone(&absent, key(3), generation(3), at(20)).ok().unwrap(),
        CanonicalCloneLookup::Missing
    ));
    let idle = CanonicalCloneSingleflight::new(key(3), generation(3)).unwrap();
    assert!(matches!(
        classify_flight(idle, key(3), generation(3), at(20)).unwrap(),
        CanonicalCloneLookup::Claimable
    ));
    let other = CanonicalCloneSingleflight::new(key(3), generation(3)).unwrap();
    assert!(!matches!(
        classify_flight(other, key(3), generation(4), at(20)),
        Ok(CanonicalCloneLookup::Hit(_))
    ));
    let mut building = CanonicalCloneSingleflight::new(key(3), generation(3)).unwrap();
    building.claim(token("one"), 1, at(5), at(50)).unwrap();
    assert!(matches!(
        classify_flight(building, key(3), generation(3), at(20)).unwrap(),
        CanonicalCloneLookup::Building(_)
    ));
}

struct Source {
    bytes: Vec<u8>,
}

impl CanonicalCloneByteSource for Source {
    type Error = u8;

    fn content_length(&self, _locator: &CanonicalCloneLocator) -> Result<Option<u64>, u8> {
        Ok(Some(self.bytes.len() as u64))
    }

    fn read_range(
        &self,
        _locator: &CanonicalCloneLocator,
        offset: u64,
        length: usize,
    ) -> Result<Option<Vec<u8>>, u8> {
        let start = offset as usize;
        Ok(Some(self.bytes[start..start + length].to_vec()))
    }
}

fn options() -> CanonicalCloneServeOptions {
    CanonicalCloneServeOptions { range_bytes: 16, stream_limits: PackStreamLimits::default() }
}

#[test]
fn verified_pack_is_served_whole() {
    let bytes = pack(&[9u8; 100]);
    let source = Source { bytes: bytes.clone() };
    let mut wire = BoundedVecPackSink::new(PackStreamLimits::default()).unwrap();
    let report = serve_canonical_clone(
        &source,
        &manifest(&bytes, 3),
        generation(3),
        &mut wire,
        options(),
        NeverCancel,
    )
    .ok()
    .unwrap();
    assert_eq!(report.verified_bytes, 132);
    assert_eq!(report.verification_reads, 9);
    assert_eq!(report.serving_reads, 9);
    assert_eq!(report.wire.emitted_bytes, 132);
    assert_eq!(wire.into_bytes().unwrap(), bytes);
}

#[test]
fn damaged_or_stale_packs_are_not_served() {
    let bytes = pack(&[9u8; 100]);
    let mut damaged = bytes.clone();
    damaged[50] ^= 1;
    let mut wire = BoundedVecPackSink::new(PackStreamLimits::default()).unwrap();
    let serve = |source: Source, refs: u64, wire: &mut BoundedVecPackSink| {
        serve_canonical_clone(&source, &manifest(&bytes, 3), generation(refs), wire, options(), NeverCancel)
            .err()
            .unwrap()
    };
    assert!(matches!(
        serve(Source { bytes: damaged }, 3, &mut wire),
        CanonicalCloneServeError::Data(CanonicalCloneDataError::ChecksumMismatch)
    ));
    assert_eq!(wire.report().emitted_bytes, 0);
    assert!(matches!(
        serve(Source { bytes: bytes.clone() }, 4, &mut wire),
        CanonicalCloneServeError::Data(CanonicalCloneDataError::Ineligible)
    ));
    let mut longer = bytes.clone();
    longer.push(0);
    assert!(matches!(
        serve(Source { bytes: longer }, 3, &mut wire),
        CanonicalCloneServeError::Data(CanonicalCloneDataError::LengthMismatch)
    ));
    let token = PackCancellationToken::new();
    token.cancel();
    let cancelled = serve_canonical_clone(
        &Source { bytes: bytes.clone() },
        &manifest(&bytes, 3),
        generation(3),
        &mut wire,
        options(),
        token,
    );
    assert!(matches!(
        cancelled.err(),
        Some(CanonicalCloneServeError::Stream(PackStreamError::Cancelled))
    ));
}

#[test]
fn wire_budget_counts_framing() {
    let mut limits = PackStreamLimits::default();
    limits.max_total_bytes = 8 + 100 + 5 * 10 + 4;
    assert_eq!(validate_wire_budget(100, true, 10, limits), Ok(()));
    assert_eq!(validate_wire_budget(101, true, 10, limits), Err(PackStreamError::TotalLimit));
    assert_eq!(validate_wire_budget(154, false, 10, limits), Ok(()));
    assert_eq!(validate_wire_budget(155, false, 10, limits), Err(PackStreamError::TotalLimit));
    assert_eq!(validate_wire_budget(1, true, 0, limits), Err(PackStreamError::InvalidLimits));
    assert!(CanonicalCloneServeOptions::default().validate().is_ok());
}
