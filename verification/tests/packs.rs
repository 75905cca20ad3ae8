use grit_protocol::bytes::{push_be_u32, read_be};
use grit_protocol::clock::Timestamp;
use grit_protocol::clone_metrics::CloneLimits;
use grit_protocol::digest::{hash_bytes, object_id};
use grit_protocol::external_pack_promotion::{
    promote_external_push_pack, valid_key_prefix, verify_exact_object, ExternalPackObject,
    ExternalPackObjectVersion, ExternalPackPart, ExternalPackPromotionBackend,
    ExternalPackPromotionBegin, ExternalPackPromotionControl, ExternalPackPromotionError,
    ExternalPackPromotionLimits, ExternalPackPromotionObservation, ExternalPackPromotionStore,
    ExternalPackPromotionUpload, ExternalPackPromotionWorkLimit, ExternalPackProviderError,
    ExternalPackSlot, ExternalPackUploadPlan, ExternalPromotionOrphan, ExternalStorageOptions,
};
use grit_protocol::memory_pack_promotion::{
    canonical_promoted_object_id, promote_memory_push_pack, stage_memory_push_pack,
    MemoryPackLedger, MemoryPackPromotionError, MemoryPackPromotionLimits,
};
use grit_protocol::object::{HashAlgo, ObjectId, ObjectKind, RepositoryId, StoredObject, TenantId};
use grit_protocol::pack_promotion::check_distinct;
use grit_protocol::pack_stream::{
    BoundedVecPackSink, NeverCancel, PackAbortReason, PackCancellationToken, PackChunkSink,
    PackSinkState, PackStreamError, PackStreamLimits,
};
use grit_protocol::pack_writer::{
    abort_reason, map_stream_writer_error, IncrementalPackWriter, PackWriterError, PackWriterState,
};
use grit_protocol::pg_pack_promotion::{
    promote_pg_push_pack, PgPackLedger, PgPackPromotionControl, PgPackPromotionError,
    PgPackPromotionInstallError, PgPackPromotionLimits, PgPackPromotionObservation,
    PgPackPromotionReceipt, PgPackPromotionStage, PgPackPromotionStorage,
    PgPackPromotionWorkLimit,
};
use grit_protocol::push_metrics::ReceivePackLimits;
use grit_protocol::push_pack_validation::{
    validate_quarantined_pack, AuthorizedPushBase, AuthorizedPushBaseError,
    AuthorizedPushBaseProvider, CommitData, NoAuthorizedPushBases, PushPackEntryKind,
    PushPackValidationControl, PushPackValidationError, PushPackValidationObservation,
    PushPackValidationOptions, PushPackValidationWorkLimit, PushStructuralMetadata,
    StructuralParser, TagData, TreeEntry, ValidatedPushPack,
};
use grit_protocol::push_prepared::{PreparedPush, PreparedPushAuditSummary, PreparedQuarantine};
use grit_protocol::push_quarantine::{
    MemoryPackQuarantine, PackQuarantine, QuarantineFence, QuarantineId, QuarantineManifest,
};
use grit_protocol::varint::{push_entry_header, push_ofs_distance, push_varint};
use std::cell::RefCell;
use std::rc::Rc;

fn at(unix_nanos: i128) -> Timestamp {
    Timestamp { unix_nanos }
}

fn tenant() -> TenantId {
    TenantId { value: String::from("acme") }
}

fn repository() -> RepositoryId {
    RepositoryId { value: String::from("tools") }
}

fn object(kind: ObjectKind, data: &[u8]) -> StoredObject {
    StoredObject { kind, data: data.to_vec() }
}

fn new_writer(
    count: usize,
    algo: HashAlgo,
) -> IncrementalPackWriter<BoundedVecPackSink, NeverCancel> {
    let limits = PackStreamLimits::default();
    let sink = BoundedVecPackSink::new(limits).unwrap();
    IncrementalPackWriter::new(sink, count, algo, limits, CloneLimits::default(), NeverCancel)
        .unwrap()
}

fn write_pack(objects: &[StoredObject], algo: HashAlgo) -> Vec<u8> {
    let mut writer = new_writer(objects.len(), algo);
    writer.start().unwrap();
    for object in objects {
        writer.write_object(object).unwrap();
    }
    writer.finish().unwrap();
    writer.into_sink().into_bytes().unwrap()
}

fn compress(data: &[u8]) -> Vec<u8> {
    let mut encoder = flate2::Compress::new(flate2::Compression::default(), true);
    let mut out = Vec::with_capacity(data.len() + 100);
    encoder.compress_vec(data, &mut out, flate2::FlushCompress::Finish).unwrap();
    out
}

fn seal(bytes: &[u8], count: u32, algo: HashAlgo) -> (MemoryPackQuarantine, QuarantineFence) {
    let (mut quarantine, fence) =
        MemoryPackQuarantine::new(QuarantineId { value: 7 }, tenant(), repository());
    assert_eq!(quarantine.append(fence, 0, bytes), Ok(bytes.len() as u64));
    let checksum = ObjectId::from_bytes(&bytes[bytes.len() - algo.len()..]).unwrap();
    let manifest = QuarantineManifest {
        hash_algo: algo,
        pack_bytes: bytes.len() as u64,
        object_count: count,
        pack_checksum: Some(checksum),
        metadata_bytes: 0,
        self_contained: false,
        index_checksum: None,
    };
    let sealed = quarantine.finish(fence, checksum, manifest).unwrap();
    (quarantine, sealed)
}

struct Clock {
    now: i128,
    cancel_after: u64,
}

fn clock() -> Clock {
    Clock { now: 1_000, cancel_after: u64::MAX }
}

impl Clock {
    fn tick(&mut self) -> (Timestamp, bool) {
        let cancelled = self.cancel_after == 0;
        self.cancel_after = self.cancel_after.saturating_sub(1);
        (at(self.now), cancelled)
    }
}

impl PushPackValidationControl for Clock {
    fn observe(&mut self) -> PushPackValidationObservation {
        let (observed_at, cancelled) = self.tick();
        PushPackValidationObservation { observed_at, cancelled }
    }
}

impl PgPackPromotionControl for Clock {
    fn observe(&mut self) -> PgPackPromotionObservation {
        let (observed_at, cancelled) = self.tick();
        PgPackPromotionObservation { observed_at, cancelled }
    }
}

impl ExternalPackPromotionControl for Clock {
    fn observe(&mut self) -> ExternalPackPromotionObservation {
        let (observed_at, cancelled) = self.tick();
        ExternalPackPromotionObservation { observed_at, cancelled }
    }
}

struct Parser {
    refuse: bool,
}

impl StructuralParser for Parser {
    fn parse(
        &mut self,
        kind: ObjectKind,
        _data: &[u8],
        _algo: HashAlgo,
    ) -> Option<PushStructuralMetadata> {
        let child = ObjectId::from_bytes(&[9; 20]).unwrap();
        if self.refuse {
            return None;
        }
        match kind {
            ObjectKind::Commit => {
                Some(PushStructuralMetadata::Commit(CommitData { tree: child, parents: vec![child] }))
            }
            ObjectKind::Tree => Some(PushStructuralMetadata::Tree(vec![TreeEntry {
                mode: 0o100644,
                name: b"file".to_vec(),
                oid: child,
            }])),
            ObjectKind::Tag => Some(PushStructuralMetadata::Tag(TagData {
                object: child,
                object_type: Some(ObjectKind::Commit),
            })),
            ObjectKind::Blob => None,
        }
    }
}

fn options() -> PushPackValidationOptions {
    PushPackValidationOptions {
        limits: ReceivePackLimits::default(),
        range_chunk_bytes: 64,
        max_index_bytes: 1 << 20,
        started_at: at(1_000),
        deadline: at(2_000),
    }
}

fn validate(
    quarantine: &mut MemoryPackQuarantine,
    fence: QuarantineFence,
) -> Result<ValidatedPushPack, PushPackValidationError> {
    validate_quarantined_pack(
        quarantine,
        fence,
        &mut NoAuthorizedPushBases,
        &mut Parser { refuse: false },
        &mut clock(),
        &mut PushPackValidationWorkLimit::new(1 << 30),
        options(),
    )
}

fn raw_pack(entries: &[Vec<u8>], algo: HashAlgo) -> Vec<u8> {
    let mut bytes = b"PACK".to_vec();
    push_be_u32(&mut bytes, 2);
    push_be_u32(&mut bytes, entries.len() as u32);
    for entry in entries {
        bytes.extend_from_slice(entry);
    }
    let digest = hash_bytes(algo, &bytes);
    bytes.extend_from_slice(&digest.to_bytes());
    bytes
}

fn direct_entry(code: u8, data: &[u8]) -> Vec<u8> {
    let mut entry = Vec::new();
    push_entry_header(&mut entry, code, data.len() as u64);
    entry.extend_from_slice(&compress(data));
    entry
}

fn append_delta(base: &[u8], tail: &[u8]) -> Vec<u8> {
    let mut delta = Vec::new();
    push_varint(&mut delta, base.len() as u64);
    push_varint(&mut delta, (base.len() + tail.len()) as u64);
    delta.push(0x80 | 0x10);
    delta.push(base.len() as u8);
    delta.push(tail.len() as u8);
    delta.extend_from_slice(tail);
    delta
}

#[test]
fn written_pack_validates_with_the_same_objects() {
    for algo in [HashAlgo::Sha1, HashAlgo::Sha256] {
        let objects = vec![
            object(ObjectKind::Blob, b"hello"),
            object(ObjectKind::Blob, b""),
            object(ObjectKind::Blob, &[7u8; 5_000]),
        ];
        let pack = write_pack(&objects, algo);
        assert_eq!(&pack[..4], b"PACK");
        assert_eq!(read_be(&pack, 8, 12), 3);
        let (mut quarantine, fence) = seal(&pack, 3, algo);
        let validated = validate(&mut quarantine, fence).unwrap();
        assert_eq!(validated.index.len(), 3);
        for (row, source) in validated.index.iter().zip(objects.iter()) {
            assert_eq!(row.oid, object_id(source.kind, &source.data, algo));
            assert_eq!(row.kind, source.kind);
            assert_eq!(row.resolved_size, source.data.len() as u64);
            assert_eq!(row.representation, PushPackEntryKind::Direct);
            assert_eq!(row.delta_depth, 0);
        }
        assert_eq!(validated.index[0].entry.offset, 12);
        assert_eq!(validated.summary.blobs, 3);
        assert_eq!(validated.summary.direct_objects, 3);
        assert_eq!(validated.summary.inflated_bytes, 5_005);
        assert!(validated.attestation.self_contained);
        assert!(validated.attestation.validation_complete);
        assert_eq!(quarantine.snapshot().manifest.unwrap().index_checksum, Some(validated.attestation.index_checksum));
    }
}

#[test]
fn structural_objects_are_retained() {
    let pack = write_pack(
        &[object(ObjectKind::Commit, b"c"), object(ObjectKind::Tree, b"t"), object(ObjectKind::Tag, b"g")],
        HashAlgo::Sha1,
    );
    let (mut quarantine, fence) = seal(&pack, 3, HashAlgo::Sha1);
    let validated = validate(&mut quarantine, fence).unwrap();
    assert_eq!(validated.structural_objects.len(), 3);
    assert_eq!((validated.summary.commits, validated.summary.trees, validated.summary.tags), (1, 1, 1));
    let (mut again, fence) = seal(&pack, 3, HashAlgo::Sha1);
    let refused = validate_quarantined_pack(
        &mut again,
        fence,
        &mut NoAuthorizedPushBases,
        &mut Parser { refuse: true },
        &mut clock(),
        &mut PushPackValidationWorkLimit::new(1 << 30),
        options(),
    );
    assert_eq!(refused.unwrap_err(), PushPackValidationError::InvalidStructuralObject);
}

#[test]
fn ofs_delta_resolves_against_an_earlier_entry() {
    let base = vec![3u8; 90];
    let first = direct_entry(3, &base);
    let delta = append_delta(&base, b"tail");
    let mut second = Vec::new();
    push_entry_header(&mut second, 6, delta.len() as u64);
    push_ofs_distance(&mut second, first.len() as u64);
    second.extend_from_slice(&compress(&delta));
    let pack = raw_pack(&[first.clone(), second], HashAlgo::Sha1);
    let (mut quarantine, fence) = seal(&pack, 2, HashAlgo::Sha1);
    let validated = validate(&mut quarantine, fence).unwrap();
    let mut target = base.clone();
    target.extend_from_slice(b"tail");
    assert_eq!(validated.index[1].oid, object_id(ObjectKind::Blob, &target, HashAlgo::Sha1));
    assert_eq!(validated.index[1].delta_depth, 1);
    assert_eq!(
        validated.index[1].representation,
        PushPackEntryKind::OfsDelta { base_offset: 12, base_oid: validated.index[0].oid }
    );
    assert_eq!(validated.summary.ofs_deltas, 1);
}

struct OneBase {
    oid: ObjectId,
    data: Vec<u8>,
    asked: Vec<(ObjectId, u64)>,
}

impl AuthorizedPushBaseProvider for OneBase {
    fn read_base(
        &mut self,
        _tenant: &TenantId,
        _repository: &RepositoryId,
        oid: ObjectId,
        max_bytes: u64,
    ) -> Result<Option<AuthorizedPushBase>, AuthorizedPushBaseError> {
        self.asked.push((oid, max_bytes));
        if oid == self.oid {
            Ok(Some(AuthorizedPushBase { kind: ObjectKind::Blob, data: self.data.clone() }))
        } else {
            Ok(None)
        }
    }
}

fn thin_pack(base: &[u8]) -> (Vec<u8>, ObjectId) {
    let oid = object_id(ObjectKind::Blob, base, HashAlgo::Sha1);
    let delta = append_delta(base, b"more");
    let mut entry = Vec::new();
    push_entry_header(&mut entry, 7, delta.len() as u64);
    entry.extend_from_slice(&oid.to_bytes());
    entry.extend_from_slice(&compress(&delta));
    (raw_pack(&[entry], HashAlgo::Sha1), oid)
}

#[test]
fn thin_delta_needs_an_authorized_base() {
    let base = vec![5u8; 40];
    let (pack, oid) = thin_pack(&base);
    let (mut quarantine, fence) = seal(&pack, 1, HashAlgo::Sha1);
    let missing = validate(&mut quarantine, fence).unwrap_err();
    assert_eq!(missing, PushPackValidationError::UnresolvedDependency);

    let (mut quarantine, fence) = seal(&pack, 1, HashAlgo::Sha1);
    let validated = validate_quarantined_pack(
        &mut quarantine,
        fence,
        &mut OneBase { oid, data: base.clone(), asked: Vec::new() },
        &mut Parser { refuse: false },
        &mut clock(),
        &mut PushPackValidationWorkLimit::new(1 << 30),
        options(),
    )
    .unwrap();
    assert!(!validated.attestation.self_contained);
    assert_eq!(
        validated.index[0].representation,
        PushPackEntryKind::RefDelta { base_oid: oid, external: true }
    );
    assert_eq!(validated.summary.external_bases, 1);

    let (mut quarantine, fence) = seal(&pack, 1, HashAlgo::Sha1);
    let forged = validate_quarantined_pack(
        &mut quarantine,
        fence,
        &mut OneBase { oid, data: vec![6u8; 40], asked: Vec::new() },
        &mut Parser { refuse: false },
        &mut clock(),
        &mut PushPackValidationWorkLimit::new(1 << 30),
        options(),
    );
    assert_eq!(forged.unwrap_err(), PushPackValidationError::InvalidExternalBase);
}

#[test]
fn base_lookups_are_bounded_in_number_and_size() {
    let base = vec![5u8; 40];
    let (pack, oid) = thin_pack(&base);
    let (mut quarantine, fence) = seal(&pack, 1, HashAlgo::Sha1);
    let mut bases = OneBase { oid, data: base.clone(), asked: Vec::new() };
    validate_quarantined_pack(
        &mut quarantine,
        fence,
        &mut bases,
        &mut Parser { refuse: false },
        &mut clock(),
        &mut PushPackValidationWorkLimit::new(1 << 30),
        options(),
    )
    .unwrap();
    assert_eq!(bases.asked, vec![(oid, options().limits.max_object_bytes)]);

    let first = vec![5u8; 40];
    let second = vec![9u8; 50];
    let mut entries = Vec::new();
    for data in [&first, &second] {
        let delta = append_delta(data, b"more");
        let mut entry = Vec::new();
        push_entry_header(&mut entry, 7, delta.len() as u64);
        entry.extend_from_slice(&object_id(ObjectKind::Blob, data, HashAlgo::Sha1).to_bytes());
        entry.extend_from_slice(&compress(&delta));
        entries.push(entry);
    }
    let pack = raw_pack(&entries, HashAlgo::Sha1);
    let (mut quarantine, fence) = seal(&pack, 2, HashAlgo::Sha1);
    let mut narrow = options();
    narrow.limits.max_external_operations = 1;
    let mut bases = OneBase { oid, data: first.clone(), asked: Vec::new() };
    let refused = validate_quarantined_pack(
        &mut quarantine,
        fence,
        &mut bases,
        &mut Parser { refuse: false },
        &mut clock(),
        &mut PushPackValidationWorkLimit::new(1 << 30),
        narrow,
    );
    assert_eq!(refused.unwrap_err(), PushPackValidationError::WorkBudget);
    assert_eq!(bases.asked.len(), 1);
}

#[test]
fn damaged_packs_are_refused() {
    let good = direct_entry(3, b"hello");
    let mut bad_magic = raw_pack(&[good.clone()], HashAlgo::Sha1);
    bad_magic[0] = b'Q';
    let (mut quarantine, fence) = seal(&bad_magic, 1, HashAlgo::Sha1);
    assert_eq!(validate(&mut quarantine, fence).unwrap_err(), PushPackValidationError::InvalidPack);

    let pack = raw_pack(&[good.clone(), good.clone()], HashAlgo::Sha1);
    let (mut quarantine, fence) = seal(&pack, 2, HashAlgo::Sha1);
    assert_eq!(
        validate(&mut quarantine, fence).unwrap_err(),
        PushPackValidationError::DuplicateObject
    );

    let mut wrong_size = Vec::new();
    push_entry_header(&mut wrong_size, 3, 6);
    wrong_size.extend_from_slice(&compress(b"hello"));
    let pack = raw_pack(&[wrong_size], HashAlgo::Sha1);
    let (mut quarantine, fence) = seal(&pack, 1, HashAlgo::Sha1);
    assert_eq!(validate(&mut quarantine, fence).unwrap_err(), PushPackValidationError::ObjectSize);

    let mut broken = direct_entry(3, b"hello");
    let last = broken.len() - 6;
    broken[last] ^= 0xff;
    let pack = raw_pack(&[broken], HashAlgo::Sha1);
    let (mut quarantine, fence) = seal(&pack, 1, HashAlgo::Sha1);
    assert!(validate(&mut quarantine, fence).is_err());

    let pack = raw_pack(&[direct_entry(5, b"hello")], HashAlgo::Sha1);
    let (mut quarantine, fence) = seal(&pack, 1, HashAlgo::Sha1);
    assert_eq!(
        validate(&mut quarantine, fence).unwrap_err(),
        PushPackValidationError::InvalidHeader
    );
}

#[test]
fn validation_stops_for_budget_cancellation_and_state() {
    let pack = write_pack(&[object(ObjectKind::Blob, b"hello")], HashAlgo::Sha1);
    let attempt = |units: u64, cancel_after: u64, bounds: PushPackValidationOptions| {
        let (mut quarantine, fence) = seal(&pack, 1, HashAlgo::Sha1);
        validate_quarantined_pack(
            &mut quarantine,
            fence,
            &mut NoAuthorizedPushBases,
            &mut Parser { refuse: false },
            &mut Clock { now: 1_000, cancel_after },
            &mut PushPackValidationWorkLimit::new(units),
            bounds,
        )
        .unwrap_err()
    };
    assert_eq!(attempt(5, u64::MAX, options()), PushPackValidationError::WorkBudget);
    assert_eq!(attempt(1 << 30, 1, options()), PushPackValidationError::Cancelled);
    let mut over = options();
    over.started_at = at(2_500);
    over.deadline = at(3_000);
    assert_eq!(attempt(1 << 30, u64::MAX, over), PushPackValidationError::Deadline);
    let mut invalid = options();
    invalid.range_chunk_bytes = 0;
    assert_eq!(attempt(1 << 30, u64::MAX, invalid), PushPackValidationError::InvalidLimits);
    let mut small = options();
    small.max_index_bytes = 1;
    assert_eq!(attempt(1 << 30, u64::MAX, small), PushPackValidationError::IndexLimit);

    let (mut quarantine, fence) = seal(&pack, 1, HashAlgo::Sha1);
    let stale = QuarantineFence { id: fence.id, generation: fence.generation + 1 };
    assert_eq!(
        validate(&mut quarantine, stale).unwrap_err(),
        PushPackValidationError::InvalidQuarantine
    );
}

#[test]
fn writer_follows_its_states() {
    let mut writer = new_writer(1, HashAlgo::Sha1);
    let early = writer.write_object(&object(ObjectKind::Blob, b"x")).unwrap_err();
    assert_eq!(early.error, PackWriterError::InvalidState(PackWriterState::Ready));
    writer.start().unwrap();
    assert_eq!(writer.next_entry_offset(), 12);
    assert_eq!(
        writer.start().unwrap_err().error,
        PackWriterError::InvalidState(PackWriterState::Streaming)
    );

    let mut short = new_writer(1, HashAlgo::Sha1);
    short.start().unwrap();
    let failure = short.finish().unwrap_err();
    assert_eq!(failure.error, PackWriterError::ObjectCountMismatch);
    assert_eq!(failure.report.state, PackWriterState::Aborted);

    let mut full = new_writer(1, HashAlgo::Sha1);
    full.start().unwrap();
    let report = full.write_object(&object(ObjectKind::Blob, b"hello")).unwrap();
    assert_eq!((report.kind, report.decoded_bytes), (ObjectKind::Blob, 5));
    assert!(report.compressed_bytes > 0);
    let extra = full.write_object(&object(ObjectKind::Blob, b"y")).unwrap_err();
    assert_eq!(extra.error, PackWriterError::TooManyObjects);
    assert!(full.into_sink().into_bytes().is_err());
}

#[test]
fn writer_observes_cancellation_and_abort() {
    let limits = PackStreamLimits::default();
    let token = PackCancellationToken::new();
    let sink = BoundedVecPackSink::new(limits).unwrap();
    let mut writer = IncrementalPackWriter::new(
        sink,
        1,
        HashAlgo::Sha1,
        limits,
        CloneLimits::default(),
        token.clone(),
    )
    .unwrap();
    writer.start().unwrap();
    token.cancel();
    let failure = writer.checkpoint_before_read().unwrap_err();
    assert_eq!(failure.error, PackWriterError::Cancelled);
    assert_eq!(writer.into_sink().state(), PackSinkState::Aborted(PackAbortReason::Cancelled));

    let mut aborted = new_writer(1, HashAlgo::Sha1);
    aborted.start().unwrap();
    let report = aborted.abort(PackAbortReason::ClientDisconnected);
    assert_eq!(report.state, PackWriterState::Aborted);
    assert_eq!(abort_reason(PackWriterError::OutputLimit), PackAbortReason::LimitExceeded);
    assert_eq!(abort_reason(PackWriterError::Compression), PackAbortReason::EncodingFailure);
    assert_eq!(map_stream_writer_error(PackStreamError::Cancelled), PackWriterError::Cancelled);
}

#[test]
fn failed_writers_end_their_stream() {
    let mut short = new_writer(1, HashAlgo::Sha1);
    short.start().unwrap();
    assert_eq!(short.finish().unwrap_err().error, PackWriterError::ObjectCountMismatch);
    assert_eq!(short.into_sink().state(), PackSinkState::Aborted(PackAbortReason::LimitExceeded));

    let mut full = new_writer(0, HashAlgo::Sha1);
    full.start().unwrap();
    let extra = full.write_object(&object(ObjectKind::Blob, b"y")).unwrap_err();
    assert_eq!(extra.error, PackWriterError::TooManyObjects);
    assert_eq!(full.into_sink().state(), PackSinkState::Aborted(PackAbortReason::LimitExceeded));

    let mut limits = PackStreamLimits::default();
    limits.max_total_bytes = 40;
    let sink = BoundedVecPackSink::new(limits).unwrap();
    let mut tight = IncrementalPackWriter::new(
        sink,
        1,
        HashAlgo::Sha1,
        limits,
        CloneLimits::default(),
        NeverCancel,
    )
    .unwrap();
    tight.start().unwrap();
    let failure = tight.write_object(&object(ObjectKind::Blob, &[7; 300])).unwrap_err();
    assert_eq!(failure.error, PackWriterError::OutputLimit);
    assert_eq!(failure.report.state, PackWriterState::Aborted);
    assert_eq!(tight.into_sink().state(), PackSinkState::Aborted(PackAbortReason::LimitExceeded));
}

#[test]
fn a_start_that_is_cancelled_leaves_the_sink_open() {
    let limits = PackStreamLimits::default();
    let token = PackCancellationToken::new();
    token.cancel();
    let sink = BoundedVecPackSink::new(limits).unwrap();
    let mut writer = IncrementalPackWriter::new(
        sink,
        1,
        HashAlgo::Sha1,
        limits,
        CloneLimits::default(),
        token,
    )
    .unwrap();
    let failure = writer.start().unwrap_err();
    assert_eq!(failure.error, PackWriterError::Cancelled);
    assert_eq!(failure.report.state, PackWriterState::Ready);
    let sink = writer.into_sink();
    assert_eq!(sink.state(), PackSinkState::Open);
    assert_eq!(sink.report().emitted_bytes, 0);
}

#[test]
fn writer_refuses_plans_that_cannot_fit() {
    let limits = PackStreamLimits::default();
    let sink = BoundedVecPackSink::new(limits).unwrap();
    let mut narrow = limits;
    narrow.max_chunk_bytes = 8;
    let refused = IncrementalPackWriter::new(
        sink,
        1,
        HashAlgo::Sha1,
        narrow,
        CloneLimits::default(),
        NeverCancel,
    );
    assert!(matches!(refused.err(), Some(PackWriterError::InvalidLimits)));
    let sink = BoundedVecPackSink::new(limits).unwrap();
    let many = IncrementalPackWriter::new(
        sink,
        u32::MAX as usize + 1,
        HashAlgo::Sha1,
        limits,
        CloneLimits::default(),
        NeverCancel,
    );
    assert!(matches!(many.err(), Some(PackWriterError::ObjectCount)));
}

fn prepare(validated: &ValidatedPushPack, quarantine: &MemoryPackQuarantine) -> PreparedPush {
    let snapshot = quarantine.snapshot();
    PreparedPush {
        tenant: tenant(),
        repository: repository(),
        hash_algo: HashAlgo::Sha1,
        repository_generation: 4,
        fingerprint: ObjectId::from_bytes(&[8; 20]).unwrap(),
        quarantine: PreparedQuarantine {
            id: snapshot.id,
            generation: snapshot.generation,
            manifest: snapshot.manifest.unwrap(),
            attestation: validated.attestation,
        },
        pack_index: validated.index.clone(),
        commands: Vec::new(),
        ancestry: Vec::new(),
        pushed_commits: Vec::new(),
        groups: Vec::new(),
        atomic: false,
        structural_objects: 0,
        audit_summary: PreparedPushAuditSummary { commands: 0, objects: 1, pack_bytes: 1 },
    }
}

fn promotable() -> (Vec<u8>, MemoryPackQuarantine, ValidatedPushPack, PreparedPush) {
    let pack = write_pack(
        &[object(ObjectKind::Blob, b"hello"), object(ObjectKind::Blob, b"world")],
        HashAlgo::Sha1,
    );
    let (mut quarantine, fence) = seal(&pack, 2, HashAlgo::Sha1);
    let validated = validate(&mut quarantine, fence).unwrap();
    let prepared = prepare(&validated, &quarantine);
    (pack, quarantine, validated, prepared)
}

fn memory_limits() -> MemoryPackPromotionLimits {
    MemoryPackPromotionLimits {
        max_pack_bytes: 1 << 20,
        max_index_bytes: 1 << 20,
        range_chunk_bytes: 16,
    }
}

#[test]
fn memory_promotion_installs_exact_bytes_and_index() {
    let (pack, mut quarantine, validated, prepared) = promotable();
    let fence = validated.fence;
    let mut ledger = MemoryPackLedger::new();
    let receipt = promote_memory_push_pack(
        &mut ledger,
        &prepared,
        &validated,
        &mut quarantine,
        fence,
        memory_limits(),
    )
    .unwrap();
    assert_eq!(ledger.stages().len(), 1);
    let stage = &ledger.stages()[0];
    assert_eq!(stage.pack.data, pack);
    assert_eq!(stage.pack.index.len(), 2);
    assert_eq!(stage.pack.index[0].oid, validated.index[0].oid);
    assert_eq!(stage.pack.index[0].offset, 12);
    assert_eq!(stage.pack.metadata.size_bytes, pack.len() as u64);
    assert_eq!(receipt.object_count(), 2);
    assert!(!receipt.deduplicated());
    assert_eq!(receipt.prepared_fingerprint(), prepared.fingerprint);
    let again = promote_memory_push_pack(
        &mut ledger,
        &prepared,
        &validated,
        &mut quarantine,
        fence,
        memory_limits(),
    )
    .unwrap();
    assert!(again.deduplicated());
    assert_eq!(
        canonical_promoted_object_id(ObjectKind::Blob, b"hello", HashAlgo::Sha1),
        Ok(validated.index[0].oid)
    );
}

#[test]
fn memory_promotion_refuses_unbound_evidence() {
    let (_, mut quarantine, validated, prepared) = promotable();
    let fence = validated.fence;
    let mut ledger = MemoryPackLedger::new();
    let mut stale = fence;
    stale.generation += 1;
    let mut attempts = Vec::new();
    attempts.push(stage_memory_push_pack(&prepared, &validated, &mut quarantine, stale, memory_limits()).err());
    let mut other = prepare(&validated, &quarantine);
    other.tenant = TenantId { value: String::from("else") };
    attempts.push(stage_memory_push_pack(&other, &validated, &mut quarantine, fence, memory_limits()).err());
    let mut old = prepare(&validated, &quarantine);
    old.repository_generation = 0;
    attempts.push(stage_memory_push_pack(&old, &validated, &mut quarantine, fence, memory_limits()).err());
    let mut small = memory_limits();
    small.max_pack_bytes = 10;
    attempts.push(stage_memory_push_pack(&prepared, &validated, &mut quarantine, fence, small).err());
    for attempt in attempts {
        assert_eq!(attempt, Some(MemoryPackPromotionError::Binding));
    }
    let mut rows = memory_limits();
    rows.max_index_bytes = 10;
    assert_eq!(
        promote_memory_push_pack(&mut ledger, &prepared, &validated, &mut quarantine, fence, rows)
            .err(),
        Some(MemoryPackPromotionError::MetadataLimit)
    );
    let mut zero = memory_limits();
    zero.range_chunk_bytes = 0;
    assert_eq!(
        promote_memory_push_pack(&mut ledger, &prepared, &validated, &mut quarantine, fence, zero)
            .err(),
        Some(MemoryPackPromotionError::InvalidLimits)
    );
    assert!(ledger.stages().is_empty());
}

#[test]
fn promotion_checks_the_trailer() {
    let good = direct_entry(3, b"hello");
    let mut pack = raw_pack(&[good], HashAlgo::Sha1);
    let end = pack.len();
    pack[end - 1] ^= 1;
    let (mut quarantine, fence) = seal(&pack, 1, HashAlgo::Sha1);
    let validated = validate(&mut quarantine, fence).unwrap();
    let prepared = prepare(&validated, &quarantine);
    assert_eq!(
        stage_memory_push_pack(&prepared, &validated, &mut quarantine, validated.fence, memory_limits()).err(),
        Some(MemoryPackPromotionError::Checksum)
    );
}

fn pg_limits() -> PgPackPromotionLimits {
    PgPackPromotionLimits {
        max_pack_bytes: 1 << 20,
        max_index_bytes: 1 << 20,
        range_chunk_bytes: 32,
        started_at: at(1_000),
        deadline: at(2_000),
    }
}

#[test]
fn pg_promotion_installs_and_stops() {
    let (pack, mut quarantine, validated, prepared) = promotable();
    let fence = validated.fence;
    let mut ledger = PgPackLedger::new();
    let mut work = PgPackPromotionWorkLimit::new(10_000);
    let receipt = promote_pg_push_pack(
        &mut ledger,
        &prepared,
        &validated,
        &mut quarantine,
        fence,
        pg_limits(),
        &mut work,
        &mut clock(),
    )
    .unwrap();
    assert_eq!(receipt.size_bytes(), pack.len() as u64);
    assert!(matches!(ledger.stages()[0].storage, PgPackPromotionStorage::Database));
    assert!(ledger.stages()[0].storage.backend_name().is_none());
    assert!(work.remaining() < 10_000 - pack.len() as u64);

    let mut tight = PgPackPromotionWorkLimit::new(20);
    let stopped = promote_pg_push_pack(
        &mut ledger,
        &prepared,
        &validated,
        &mut quarantine,
        fence,
        pg_limits(),
        &mut tight,
        &mut clock(),
    );
    assert_eq!(stopped.err(), Some(PgPackPromotionError::WorkBudget));
    let mut plenty = PgPackPromotionWorkLimit::new(10_000);
    let cancelled = promote_pg_push_pack(
        &mut ledger,
        &prepared,
        &validated,
        &mut quarantine,
        fence,
        pg_limits(),
        &mut plenty,
        &mut Clock { now: 1_000, cancel_after: 2 },
    );
    assert_eq!(cancelled.err(), Some(PgPackPromotionError::Cancelled));
    assert_eq!(ledger.stages().len(), 1);
}

#[test]
fn index_rows_must_be_distinct() {
    let (_, _, validated, _) = promotable();
    assert!(check_distinct(&validated.index));
    let mut twice = validated.index.clone();
    twice[1].oid = twice[0].oid;
    assert!(!check_distinct(&twice));
}

fn external_limits() -> ExternalPackPromotionLimits {
    ExternalPackPromotionLimits {
        max_pack_bytes: 1 << 20,
        max_index_bytes: 1 << 20,
        part_bytes: 1 << 16,
        maximum_in_flight_parts: 2,
        maximum_parts: 4,
        started_at: at(1_000),
        deadline: at(2_000),
        orphan_not_before: at(3_000),
    }
}

fn external_options() -> ExternalStorageOptions {
    ExternalStorageOptions {
        write_packs_externally: true,
        backend_name: String::from("bucket"),
        key_prefix: String::from("packs/v1"),
    }
}

struct Shelf {
    object: Rc<RefCell<Option<(u64, ObjectId)>>>,
    bytes: Rc<RefCell<Vec<u8>>>,
    steps: Vec<String>,
    aborted: Rc<RefCell<u32>>,
    fail_begin: bool,
    fail_upload: bool,
}

fn shelf() -> Shelf {
    Shelf {
        object: Rc::new(RefCell::new(None)),
        bytes: Rc::new(RefCell::new(Vec::new())),
        steps: Vec::new(),
        aborted: Rc::new(RefCell::new(0)),
        fail_begin: false,
        fail_upload: false,
    }
}

fn stored(size_bytes: u64, content_checksum: ObjectId) -> ExternalPackObject {
    ExternalPackObject {
        size_bytes,
        content_checksum,
        version: ExternalPackObjectVersion::new(b"v1".to_vec()).unwrap(),
    }
}

struct ShelfUpload {
    object: Rc<RefCell<Option<(u64, ObjectId)>>>,
    bytes: Rc<RefCell<Vec<u8>>>,
    plan: ExternalPackUploadPlan,
    aborted: Rc<RefCell<u32>>,
    fail_upload: bool,
}

impl ExternalPackPromotionUpload for ShelfUpload {
    fn upload_parts(&mut self, parts: Vec<ExternalPackPart>) -> Result<(), ExternalPackProviderError> {
        if self.fail_upload {
            return Err(ExternalPackProviderError);
        }
        for part in parts {
            assert_eq!(part.offset, self.bytes.borrow().len() as u64);
            assert_eq!(part.checksum, hash_bytes(HashAlgo::Sha1, &part.bytes));
            self.bytes.borrow_mut().extend_from_slice(&part.bytes);
        }
        Ok(())
    }

    fn complete(self) -> Result<ExternalPackObject, ExternalPackProviderError> {
        let size = self.bytes.borrow().len() as u64;
        *self.object.borrow_mut() = Some((size, self.plan.content_checksum));
        Ok(stored(size, self.plan.content_checksum))
    }

    fn abort(self) -> Result<(), ExternalPackProviderError> {
        *self.aborted.borrow_mut() += 1;
        Ok(())
    }
}

impl ExternalPackPromotionStore for Shelf {
    type Upload = ShelfUpload;

    fn inspect_final(&self, _key: &str) -> Result<Option<ExternalPackObject>, ExternalPackProviderError> {
        Ok(self.object.borrow().map(|(size, checksum)| stored(size, checksum)))
    }

    fn begin_create_if_absent(
        &mut self,
        key: &str,
        plan: &ExternalPackUploadPlan,
    ) -> Result<ExternalPackPromotionBegin<ShelfUpload>, ExternalPackProviderError> {
        self.steps.push(format!("begin {}", key));
        if self.fail_begin {
            return Err(ExternalPackProviderError);
        }
        Ok(ExternalPackPromotionBegin::Upload(ShelfUpload {
            object: self.object.clone(),
            bytes: self.bytes.clone(),
            plan: *plan,
            aborted: self.aborted.clone(),
            fail_upload: self.fail_upload,
        }))
    }
}

impl ExternalPackPromotionBackend for Shelf {
    fn pack_key(&self, tenant: &TenantId, repository: &RepositoryId, _checksum: ObjectId) -> String {
        format!("packs/v1/{}/{}", tenant.value, repository.value)
    }

    fn register_external_promotion_orphan(
        &mut self,
        orphan: ExternalPromotionOrphan,
    ) -> Result<(), PgPackPromotionInstallError> {
        self.steps.push(format!("orphan {}", orphan.storage_version.is_some()));
        Ok(())
    }

    fn install_promoted_push_pack(
        &mut self,
        stage: PgPackPromotionStage,
    ) -> Result<PgPackPromotionReceipt, PgPackPromotionInstallError> {
        self.steps.push(format!("install {}", stage.pack.data.len()));
        Err(PgPackPromotionInstallError::StaleGeneration)
    }
}

#[test]
fn external_promotion_records_before_it_uploads() {
    let (pack, mut quarantine, validated, prepared) = promotable();
    let mut store = shelf();
    let result = promote_external_push_pack(
        &mut store,
        &external_options(),
        &prepared,
        &validated,
        &mut quarantine,
        validated.fence,
        external_limits(),
        &mut ExternalPackPromotionWorkLimit::new(100_000),
        &mut clock(),
    );
    assert_eq!(result.err(), Some(ExternalPackPromotionError::StaleGeneration));
    assert_eq!(
        store.steps,
        vec!["orphan false", "begin packs/v1/acme/tools", "orphan true", "install 0"]
    );
    assert_eq!(*store.bytes.borrow(), pack);
}

#[test]
fn failed_uploads_are_aborted_once() {
    let (_pack, mut quarantine, validated, prepared) = promotable();
    let mut store = shelf();
    store.fail_upload = true;
    let result = promote_external_push_pack(
        &mut store,
        &external_options(),
        &prepared,
        &validated,
        &mut quarantine,
        validated.fence,
        external_limits(),
        &mut ExternalPackPromotionWorkLimit::new(100_000),
        &mut clock(),
    );
    assert_eq!(result.err(), Some(ExternalPackPromotionError::Provider));
    assert_eq!(*store.aborted.borrow(), 1);
    assert!(store.object.borrow().is_none());
    assert_eq!(store.steps, vec!["orphan false", "begin packs/v1/acme/tools"]);
}

#[test]
fn external_promotion_takes_an_exact_object() {
    let (pack, mut quarantine, validated, prepared) = promotable();
    let checksum = validated.attestation.pack_checksum;
    let mut slot =
        ExternalPackSlot::new(String::from("k"), Some(stored(pack.len() as u64, checksum)));
    let receipt = promote_external_push_pack(
        &mut slot,
        &external_options(),
        &prepared,
        &validated,
        &mut quarantine,
        validated.fence,
        external_limits(),
        &mut ExternalPackPromotionWorkLimit::new(100_000),
        &mut clock(),
    )
    .unwrap();
    assert_eq!(receipt.size_bytes(), pack.len() as u64);
    assert_eq!(slot.orphans().len(), 2);
    let stage = &slot.stages()[0];
    assert_eq!(stage.storage.storage_key(), Some("k"));
    assert_eq!(stage.storage.storage_version(), Some(&b"v1"[..]));
    assert_eq!(stage.storage.storage_checksum(), Some(checksum.to_bytes()));
    assert!(stage.pack.data.is_empty());
    assert_eq!(stage.pack.index.len(), 2);

    let mut other = ExternalPackSlot::new(String::from("k"), Some(stored(1, checksum)));
    let collision = promote_external_push_pack(
        &mut other,
        &external_options(),
        &prepared,
        &validated,
        &mut quarantine,
        validated.fence,
        external_limits(),
        &mut ExternalPackPromotionWorkLimit::new(100_000),
        &mut clock(),
    );
    assert_eq!(collision.err(), Some(ExternalPackPromotionError::Collision));
    assert!(other.stages().is_empty());

    let mut absent = ExternalPackSlot::new(String::from("k"), None);
    let lost = promote_external_push_pack(
        &mut absent,
        &external_options(),
        &prepared,
        &validated,
        &mut quarantine,
        validated.fence,
        external_limits(),
        &mut ExternalPackPromotionWorkLimit::new(100_000),
        &mut clock(),
    );
    assert_eq!(lost.err(), Some(ExternalPackPromotionError::Provider));
    assert_eq!(absent.orphans().len(), 1);
}

#[test]
fn external_promotion_refuses_before_anything_is_recorded() {
    let (_, mut quarantine, validated, prepared) = promotable();
    let mut store = shelf();
    let mut run = |options: ExternalStorageOptions, limits: ExternalPackPromotionLimits| {
        promote_external_push_pack(
            &mut store,
            &options,
            &prepared,
            &validated,
            &mut quarantine,
            validated.fence,
            limits,
            &mut ExternalPackPromotionWorkLimit::new(100_000),
            &mut clock(),
        )
        .err()
    };
    let mut off = external_options();
    off.write_packs_externally = false;
    assert_eq!(run(off, external_limits()), Some(ExternalPackPromotionError::Binding));
    let mut dots = external_options();
    dots.key_prefix = String::from("packs/../x");
    assert_eq!(run(dots, external_limits()), Some(ExternalPackPromotionError::Binding));
    let mut parts = external_limits();
    parts.part_bytes = 10;
    assert_eq!(run(external_options(), parts), Some(ExternalPackPromotionError::MetadataLimit));
    let mut late = external_limits();
    late.orphan_not_before = at(1_500);
    assert_eq!(run(external_options(), late), Some(ExternalPackPromotionError::InvalidLimits));
    let mut flight = external_limits();
    flight.maximum_in_flight_parts = usize::MAX;
    assert_eq!(run(external_options(), flight), Some(ExternalPackPromotionError::InvalidLimits));
    assert!(store.steps.is_empty());
}

#[test]
fn key_prefixes_are_plain() {
    for good in ["", "packs", "/packs/", "a/b-c_d.e", "A9"] {
        assert!(valid_key_prefix(&String::from(good)));
    }
    for bad in ["/", "//", "a//b", "a/./b", "..", "a b", "ä", "a/ "] {
        assert!(!valid_key_prefix(&String::from(bad)));
    }
}

#[test]
fn provider_versions_are_bounded() {
    assert!(ExternalPackObjectVersion::new(Vec::new()).is_err());
    assert!(ExternalPackObjectVersion::new(vec![0; 4_097]).is_err());
    assert_eq!(ExternalPackObjectVersion::new(vec![0; 4_096]).unwrap().as_bytes().len(), 4_096);
    let checksum = ObjectId::from_bytes(&[3; 20]).unwrap();
    let plan = ExternalPackUploadPlan {
        size_bytes: 9,
        content_checksum: checksum,
        part_bytes: 9,
        maximum_in_flight_parts: 1,
        maximum_parts: 1,
    };
    assert!(verify_exact_object(stored(9, checksum), &plan).is_ok());
    assert!(matches!(
        verify_exact_object(stored(8, checksum), &plan).err(),
        Some(ExternalPackPromotionError::Collision)
    ));
    assert!(stored(9, checksum).same(&stored(9, checksum)));
    assert!(!stored(9, checksum).same(&stored(8, checksum)));
}
