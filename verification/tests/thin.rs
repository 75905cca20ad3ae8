use grit_protocol::bytes::push_be_u32;
use grit_protocol::clock::Timestamp;
use grit_protocol::digest::{hash_bytes, object_id};
use grit_protocol::object::{HashAlgo, ObjectId, ObjectKind, RepositoryId, TenantId};
use grit_protocol::push_fix_thin::{
    accept_observation, adapt_observation, bounded_length, encode_entry_header,
    map_validation_error, plan_fix_thin_pack, required_bases, rewrite_fix_thin_pack,
    rewrite_pack_header, span_end, zlib_upper_bound, AuthorizedThinBase,
    AuthorizedThinBaseProvider, FixThinControl, FixThinError, FixThinObservation, FixThinOptions,
    FixThinPlan, FixThinWork, FixThinWorkLimit, FixedThinPack, ThinBaseAuthorization,
    ThinBaseSourceError,
};
use grit_protocol::push_metrics::ReceivePackLimits;
use grit_protocol::push_pack_validation::{
    validate_quarantined_pack, AuthorizedPushBase, AuthorizedPushBaseError,
    AuthorizedPushBaseProvider, BlobsOnly, PushPackByteSpan, PushPackEntryKind,
    PushPackValidationControl, PushPackValidationError, PushPackValidationObservation,
    PushPackValidationOptions, PushPackValidationWorkLimit, ValidatedPushPack,
};
use grit_protocol::push_quarantine::{
    MemoryPackQuarantine, PackQuarantine, QuarantineFence, QuarantineId, QuarantineManifest,
};
use grit_protocol::varint::{push_entry_header, push_varint};

fn at(unix_nanos: i128) -> Timestamp {
    Timestamp { unix_nanos }
}

fn tenant() -> TenantId {
    TenantId { value: String::from("acme") }
}

fn repository() -> RepositoryId {
    RepositoryId { value: String::from("tools") }
}

fn compress(data: &[u8]) -> Vec<u8> {
    let mut encoder = flate2::Compress::new(flate2::Compression::default(), true);
    let mut out = Vec::with_capacity(data.len() + 100);
    encoder.compress_vec(data, &mut out, flate2::FlushCompress::Finish).unwrap();
    out
}

fn sealed(bytes: &[u8], count: u32) -> (MemoryPackQuarantine, QuarantineFence) {
    let (mut quarantine, fence) =
        MemoryPackQuarantine::new(QuarantineId { value: 7 }, tenant(), repository());
    quarantine.append(fence, 0, bytes).unwrap();
    let checksum = ObjectId::from_bytes(&bytes[bytes.len() - 20..]).unwrap();
    let manifest = QuarantineManifest {
        hash_algo: HashAlgo::Sha1,
        pack_bytes: bytes.len() as u64,
        object_count: count,
        pack_checksum: Some(checksum),
        metadata_bytes: 0,
        self_contained: false,
        index_checksum: None,
    };
    let sealed = quarantine.finish(fence, checksum, manifest).unwrap();
    (quarantine, sealed)
}

fn pack_of(entries: &[Vec<u8>]) -> Vec<u8> {
    let mut bytes = b"PACK".to_vec();
    push_be_u32(&mut bytes, 2);
    push_be_u32(&mut bytes, entries.len() as u32);
    for entry in entries {
        bytes.extend_from_slice(entry);
    }
    let digest = hash_bytes(HashAlgo::Sha1, &bytes);
    bytes.extend_from_slice(&digest.to_bytes());
    bytes
}

fn delta_entry(base: &[u8], tail: &[u8]) -> Vec<u8> {
    let mut delta = Vec::new();
    push_varint(&mut delta, base.len() as u64);
    push_varint(&mut delta, (base.len() + tail.len()) as u64);
    delta.push(0x80 | 0x10);
    delta.push(base.len() as u8);
    delta.push(tail.len() as u8);
    delta.extend_from_slice(tail);
    let mut entry = Vec::new();
    push_entry_header(&mut entry, 7, delta.len() as u64);
    entry.extend_from_slice(&object_id(ObjectKind::Blob, base, HashAlgo::Sha1).to_bytes());
    entry.extend_from_slice(&compress(&delta));
    entry
}

struct Clock {
    now: i128,
    cancel_after: u64,
}

fn clock() -> Clock {
    Clock { now: 1_000, cancel_after: u64::MAX }
}

impl PushPackValidationControl for Clock {
    fn observe(&mut self) -> PushPackValidationObservation {
        PushPackValidationObservation { observed_at: at(self.now), cancelled: false }
    }
}

impl FixThinControl for Clock {
    fn observe(&mut self) -> FixThinObservation {
        let cancelled = self.cancel_after == 0;
        self.cancel_after = self.cancel_after.saturating_sub(1);
        FixThinObservation { observed_at: at(self.now), cancelled }
    }
}

#[derive(Clone)]
struct Bases {
    payloads: Vec<Vec<u8>>,
    served: Vec<Vec<u8>>,
    authorization: ThinBaseAuthorization,
    foreign: bool,
    version: u64,
}

fn bases(payloads: &[&[u8]]) -> Bases {
    let payloads: Vec<Vec<u8>> = payloads.iter().map(|payload| payload.to_vec()).collect();
    Bases {
        served: payloads.clone(),
        payloads,
        authorization: ThinBaseAuthorization::Allowed,
        foreign: false,
        version: 3,
    }
}

impl Bases {
    fn find(&self, oid: ObjectId) -> Option<usize> {
        self.payloads
            .iter()
            .position(|payload| object_id(ObjectKind::Blob, payload, HashAlgo::Sha1) == oid)
    }
}

impl AuthorizedPushBaseProvider for Bases {
    fn read_base(
        &mut self,
        _tenant: &TenantId,
        _repository: &RepositoryId,
        oid: ObjectId,
        _max_bytes: u64,
    ) -> Result<Option<AuthorizedPushBase>, AuthorizedPushBaseError> {
        Ok(self
            .find(oid)
            .map(|k| AuthorizedPushBase { kind: ObjectKind::Blob, data: self.payloads[k].clone() }))
    }
}

impl AuthorizedThinBaseProvider for Bases {
    fn describe_bases(
        &mut self,
        _tenant: &TenantId,
        _repository: &RepositoryId,
        oids: &Vec<ObjectId>,
        _max_metadata_bytes: u64,
    ) -> Result<Vec<AuthorizedThinBase>, ThinBaseSourceError> {
        let mut described = Vec::new();
        for oid in oids.iter().rev() {
            if let Some(k) = self.find(*oid) {
                described.push(AuthorizedThinBase {
                    tenant: tenant(),
                    repository: if self.foreign {
                        RepositoryId { value: String::from("other") }
                    } else {
                        repository()
                    },
                    oid: *oid,
                    kind: ObjectKind::Blob,
                    payload_bytes: self.payloads[k].len() as u64,
                    authorization: self.authorization,
                    authorization_version: self.version,
                });
            }
        }
        Ok(described)
    }

    fn read_base_range(
        &mut self,
        _tenant: &TenantId,
        _repository: &RepositoryId,
        oid: ObjectId,
        authorization_version: u64,
        offset: u64,
        length: usize,
    ) -> Result<Vec<u8>, ThinBaseSourceError> {
        if authorization_version != self.version {
            return Err(ThinBaseSourceError);
        }
        match self.find(oid) {
            Some(k) => Ok(self.served[k][offset as usize..offset as usize + length].to_vec()),
            None => Err(ThinBaseSourceError),
        }
    }
}

fn options() -> FixThinOptions {
    FixThinOptions {
        limits: ReceivePackLimits::default(),
        max_added_bases: 8,
        max_added_base_bytes: 1 << 20,
        source_chunk_bytes: 32,
        base_chunk_bytes: 16,
        output_chunk_bytes: 64,
        started_at: at(1_000),
        deadline: at(2_000),
    }
}

fn validated(quarantine: &mut MemoryPackQuarantine, fence: QuarantineFence, provider: &Bases) -> ValidatedPushPack {
    validate_quarantined_pack(
        quarantine,
        fence,
        &mut provider.clone(),
        &mut BlobsOnly,
        &mut clock(),
        &mut PushPackValidationWorkLimit::new(1 << 30),
        PushPackValidationOptions {
            limits: ReceivePackLimits::default(),
            range_chunk_bytes: 64,
            max_index_bytes: 1 << 20,
            started_at: at(1_000),
            deadline: at(2_000),
        },
    )
    .unwrap()
}

struct Scene {
    quarantine: MemoryPackQuarantine,
    fence: QuarantineFence,
    pack: ValidatedPushPack,
    bytes: Vec<u8>,
}

fn scene(entries: &[Vec<u8>], provider: &Bases) -> Scene {
    let bytes = pack_of(entries);
    let (mut quarantine, fence) = sealed(&bytes, entries.len() as u32);
    let pack = validated(&mut quarantine, fence, provider);
    let fence = pack.fence;
    Scene { quarantine, fence, pack, bytes }
}

fn plan(scene: &Scene, provider: &mut Bases, options: FixThinOptions) -> Result<FixThinPlan, FixThinError> {
    plan_fix_thin_pack(
        &scene.pack,
        &scene.quarantine.snapshot(),
        provider,
        options,
        &mut FixThinWorkLimit::new(1 << 20),
        &mut clock(),
    )
}

fn rewrite(
    plan: &FixThinPlan,
    scene: Scene,
    provider: &mut Bases,
    units: u64,
    cancel_after: u64,
) -> (Result<FixedThinPack, FixThinError>, MemoryPackQuarantine) {
    let (mut target, fence) =
        MemoryPackQuarantine::new(QuarantineId { value: 8 }, tenant(), repository());
    let mut source = scene.quarantine;
    let result = rewrite_fix_thin_pack(
        plan,
        scene.pack,
        &mut source,
        &mut target,
        fence,
        provider,
        &mut BlobsOnly,
        options(),
        &mut FixThinWorkLimit::new(units),
        &mut Clock { now: 1_000, cancel_after },
    );
    (result, target)
}

#[test]
fn thin_pack_becomes_self_contained() {
    let first = vec![5u8; 40];
    let second = vec![6u8; 33];
    let mut provider = bases(&[&first, &second]);
    let entries =
        [delta_entry(&first, b"one"), delta_entry(&second, b"two"), delta_entry(&first, b"three")];
    let scene = scene(&entries, &provider);
    let source_bytes = scene.bytes.clone();
    let plan = plan(&scene, &mut provider, options()).unwrap();
    assert_eq!(plan.added_base_count(), 2);
    assert_eq!(plan.added_base_bytes(), 73);
    assert!(plan.bases()[0].oid().to_bytes() < plan.bases()[1].oid().to_bytes());
    assert_eq!(plan.bases()[0].authorization_version(), 3);
    assert_eq!(plan.work_units(), (source_bytes.len() as u64 - 32) + 2 * 73 + 5);

    let (fixed, mut target) = rewrite(&plan, scene, &mut provider, 1 << 20, u64::MAX);
    let fixed = fixed.unwrap();
    assert_eq!(fixed.plan_fingerprint, plan.fingerprint());
    assert!(fixed.validated.attestation.self_contained);
    assert_eq!(fixed.validated.index.len(), 5);
    assert_eq!(fixed.manifest.object_count, 5);
    assert!(fixed.manifest.pack_bytes <= plan.output_upper_bound());
    assert_eq!(fixed.report.added_base_bytes, 73);
    assert_eq!(fixed.report.copied_entry_bytes, source_bytes.len() as u64 - 32);
    assert_eq!(fixed.report.output_pack_bytes, fixed.manifest.pack_bytes);
    assert_eq!(
        fixed.validated.index[0].representation,
        PushPackEntryKind::RefDelta {
            base_oid: object_id(ObjectKind::Blob, &first, HashAlgo::Sha1),
            external: false,
        }
    );
    assert_eq!(fixed.validated.index[3].representation, PushPackEntryKind::Direct);
    let length = fixed.manifest.pack_bytes as usize;
    let bytes = target.read_range(fixed.validated.fence, 0, length).unwrap();
    assert_eq!(&bytes[..12], &[80, 65, 67, 75, 0, 0, 0, 2, 0, 0, 0, 5]);
    assert_eq!(&bytes[12..source_bytes.len() - 20], &source_bytes[12..source_bytes.len() - 20]);
    let digest = hash_bytes(HashAlgo::Sha1, &bytes[..length - 20]);
    assert_eq!(&bytes[length - 20..], &digest.to_bytes()[..]);
}

#[test]
fn complete_packs_need_no_fixing() {
    let mut entry = Vec::new();
    push_entry_header(&mut entry, 3, 5);
    entry.extend_from_slice(&compress(b"hello"));
    let mut provider = bases(&[]);
    let scene = scene(&[entry], &provider);
    assert_eq!(plan(&scene, &mut provider, options()).err(), Some(FixThinError::NotRequired));
}

#[test]
fn planning_rejects_bad_bases_and_limits() {
    let base = vec![5u8; 40];
    let good = bases(&[&base]);
    let scene = scene(&[delta_entry(&base, b"more")], &good);
    let fault = |provider: Bases, change: fn(&mut FixThinOptions)| {
        let mut bounds = options();
        change(&mut bounds);
        plan(&scene, &mut provider.clone(), bounds).err().unwrap()
    };
    assert_eq!(fault(bases(&[]), |_| ()), FixThinError::MissingBase);
    let mut denied = good.clone();
    denied.authorization = ThinBaseAuthorization::Denied;
    assert_eq!(fault(denied, |_| ()), FixThinError::UnauthorizedBase);
    let mut foreign = good.clone();
    foreign.foreign = true;
    assert_eq!(fault(foreign, |_| ()), FixThinError::UnauthorizedBase);
    let mut unversioned = good.clone();
    unversioned.version = 0;
    assert_eq!(fault(unversioned, |_| ()), FixThinError::Limit);
    assert_eq!(fault(good.clone(), |bounds| bounds.max_added_base_bytes = 39), FixThinError::Limit);
    assert_eq!(fault(good.clone(), |bounds| bounds.max_added_bases = 0), FixThinError::InvalidLimits);
    assert_eq!(fault(good.clone(), |bounds| bounds.deadline = at(1_000)), FixThinError::InvalidLimits);
    let mut other = scene.quarantine.snapshot();
    other.generation += 1;
    let moved = plan_fix_thin_pack(
        &scene.pack,
        &other,
        &mut good.clone(),
        options(),
        &mut FixThinWorkLimit::new(1 << 20),
        &mut clock(),
    );
    assert_eq!(moved.err(), Some(FixThinError::InvalidBinding));
    let starved = plan_fix_thin_pack(
        &scene.pack,
        &scene.quarantine.snapshot(),
        &mut good.clone(),
        options(),
        &mut FixThinWorkLimit::new(1),
        &mut clock(),
    );
    assert_eq!(starved.err(), Some(FixThinError::WorkBudget));
    let cancelled = plan_fix_thin_pack(
        &scene.pack,
        &scene.quarantine.snapshot(),
        &mut good.clone(),
        options(),
        &mut FixThinWorkLimit::new(1 << 20),
        &mut Clock { now: 1_000, cancel_after: 1 },
    );
    assert_eq!(cancelled.err(), Some(FixThinError::Cancelled));
}

#[test]
fn rewriting_stops_on_faults() {
    let base = vec![5u8; 40];
    let entries = [delta_entry(&base, b"more")];
    let good = bases(&[&base]);
    let source = || scene(&entries, &good);
    let plan = plan(&source(), &mut good.clone(), options()).unwrap();

    let mut forged = good.clone();
    forged.served = vec![vec![9u8; 40]];
    assert_eq!(
        rewrite(&plan, source(), &mut forged, 1 << 20, u64::MAX).0.err(),
        Some(FixThinError::CorruptBase)
    );
    let mut revoked = good.clone();
    revoked.version = 4;
    assert_eq!(
        rewrite(&plan, source(), &mut revoked, 1 << 20, u64::MAX).0.err(),
        Some(FixThinError::MissingBase)
    );
    assert_eq!(
        rewrite(&plan, source(), &mut good.clone(), 5, u64::MAX).0.err(),
        Some(FixThinError::WorkBudget)
    );
    assert_eq!(
        rewrite(&plan, source(), &mut good.clone(), 1 << 20, 0).0.err(),
        Some(FixThinError::Cancelled)
    );
    let other = [delta_entry(&base, b"else")];
    assert_eq!(
        rewrite(&plan, scene(&other, &good), &mut good.clone(), 1 << 20, u64::MAX).0.err(),
        Some(FixThinError::InvalidBinding)
    );
    let own = source();
    let mut owned = own.quarantine;
    let (mut stale, fence) =
        MemoryPackQuarantine::new(QuarantineId { value: 7 }, tenant(), repository());
    let same = rewrite_fix_thin_pack(
        &plan,
        own.pack,
        &mut owned,
        &mut stale,
        fence,
        &mut good.clone(),
        &mut BlobsOnly,
        options(),
        &mut FixThinWorkLimit::new(1 << 20),
        &mut clock(),
    );
    assert_eq!(same.err(), Some(FixThinError::InvalidBinding));
    assert_ne!(own.fence, fence);
}

#[test]
fn required_bases_are_sorted_and_distinct() {
    let first = vec![5u8; 40];
    let second = vec![6u8; 33];
    let provider = bases(&[&first, &second]);
    let scene = scene(
        &[delta_entry(&first, b"one"), delta_entry(&second, b"two"), delta_entry(&first, b"x")],
        &provider,
    );
    let mut expected = vec![
        object_id(ObjectKind::Blob, &first, HashAlgo::Sha1),
        object_id(ObjectKind::Blob, &second, HashAlgo::Sha1),
    ];
    expected.sort_by_key(|oid| oid.to_bytes());
    assert_eq!(required_bases(&scene.pack.index, 2), Ok(expected));
    assert_eq!(required_bases(&scene.pack.index, 1), Err(FixThinError::Limit));
    assert_eq!(required_bases(&Vec::new(), 1), Err(FixThinError::InvalidBinding));
}

#[test]
fn thin_helpers_are_exact() {
    assert_eq!(zlib_upper_bound(0), Ok(6));
    assert_eq!(zlib_upper_bound(16_384), Ok(16_400));
    assert_eq!(zlib_upper_bound(u64::MAX), Err(FixThinError::Limit));
    assert_eq!(bounded_length(100, 16), Ok(16));
    assert_eq!(bounded_length(3, 16), Ok(3));
    assert_eq!(span_end(PushPackByteSpan { offset: 12, length: 5 }), Ok(17));
    assert_eq!(
        span_end(PushPackByteSpan { offset: u64::MAX, length: 5 }),
        Err(FixThinError::InvalidBinding)
    );
    assert_eq!(
        rewrite_pack_header(&[80, 65, 67, 75, 0, 0, 0, 2, 0, 0, 0, 3], 3, 260),
        Ok(vec![80, 65, 67, 75, 0, 0, 0, 2, 0, 0, 1, 4])
    );
    assert_eq!(
        rewrite_pack_header(&[80, 65, 67, 75, 0, 0, 0, 2, 0, 0, 0, 3], 4, 5),
        Err(FixThinError::InvalidBinding)
    );
    assert_eq!(encode_entry_header(ObjectKind::Blob, 20), vec![0xb4, 0x01]);
    assert_eq!(
        map_validation_error(PushPackValidationError::InvalidPack),
        FixThinError::Validation(PushPackValidationError::InvalidPack)
    );
    assert_eq!(map_validation_error(PushPackValidationError::Cancelled), FixThinError::Cancelled);
    let seen = FixThinObservation { observed_at: at(1_500), cancelled: false };
    let (forward, broken) = adapt_observation(seen, at(1_400));
    assert_eq!((forward.observed_at, forward.cancelled, broken), (at(1_500), false, false));
    let mut last = at(1_400);
    assert_eq!(accept_observation(&options(), seen, &mut last), Ok(()));
    assert_eq!(last, at(1_500));
    let late = FixThinObservation { observed_at: at(2_001), cancelled: false };
    assert_eq!(accept_observation(&options(), late, &mut last), Err(FixThinError::Deadline));
    let mut work = FixThinWorkLimit::new(2);
    assert!(work.charge(2));
    assert!(!work.charge(1));
    assert_eq!(work.remaining(), 0);
}
