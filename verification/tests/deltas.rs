use grit_protocol::clone_metrics::CloneLimits;
use grit_protocol::delta_code::{apply_instructions, read_copy, scan_instructions, DeltaScan};
use grit_protocol::delta_pack::{
    compress_bounded, encode_lcp_delta_bounded, path_score, plan_bounded_deltas, worth_delta,
    BoundedDeltaPackPlan, DeltaEntryAction, DeltaFallbackReason, DeltaObjectInput,
    DeltaPackOptions, DeltaPackOptionsError, DeltaWorkBudget, DeltaWorkLimit,
};
use grit_protocol::digest::{hash_bytes, object_id};
use grit_protocol::object::{HashAlgo, ObjectId, ObjectKind, StoredObject};
use grit_protocol::pack_entry_reuse::{
    encode_header_u64, encode_ofs_delta_distance, validate_delta_instructions,
    validate_zlib_stream, EntrySource, PackDependencySet, PackEntryPlan, PackEntrySourceError,
    PackMetadata, PackRecompressReason, PackReuseCapabilities, StoredPackEntryKind,
    ValidatedPackEntry,
};
use grit_protocol::pack_stream::{
    BoundedVecPackSink, NeverCancel, PackChunkSink, PackSinkState, PackStreamLimits,
};
use grit_protocol::pack_writer::{IncrementalPackWriter, PackWriterError, PackWriterState};
use grit_protocol::varint::{push_varint, read_varint};

fn blob(data: &[u8]) -> StoredObject {
    StoredObject { kind: ObjectKind::Blob, data: data.to_vec() }
}

fn identity(data: &[u8]) -> ObjectId {
    object_id(ObjectKind::Blob, data, HashAlgo::Sha1)
}

fn input(data: &[u8], path: Option<&str>) -> DeltaObjectInput {
    DeltaObjectInput {
        oid: identity(data),
        object: blob(data),
        path_hint: path.map(String::from),
        stored: None,
    }
}

fn noise(seed: u64, length: usize) -> Vec<u8> {
    let mut state = seed;
    let mut bytes = Vec::new();
    for _ in 0..length {
        state = state.wrapping_mul(6_364_136_223_846_793_005).wrapping_add(1_442_695_040_888_963_407);
        bytes.push((state >> 56) as u8);
    }
    bytes
}

fn writer(count: usize) -> IncrementalPackWriter<BoundedVecPackSink, NeverCancel> {
    let limits = PackStreamLimits::default();
    let sink = BoundedVecPackSink::new(limits).unwrap();
    IncrementalPackWriter::new(
        sink,
        count,
        HashAlgo::Sha1,
        limits,
        CloneLimits::default(),
        NeverCancel,
    )
    .unwrap()
}

fn inflate(data: &[u8]) -> Vec<u8> {
    let mut decoder = flate2::Decompress::new(true);
    let mut out = Vec::with_capacity(1 << 20);
    decoder.decompress_vec(data, &mut out, flate2::FlushDecompress::Finish).unwrap();
    out
}

#[test]
fn copy_instructions_read_offset_and_size() {
    let code = [0x80 | 0x01 | 0x02 | 0x10, 0x34, 0x12, 0x05];
    let read = read_copy(&code, 0).unwrap();
    assert_eq!((read.offset, read.size, read.next), (0x1234, 5, 4));
    let long = read_copy(&[0x80], 0).unwrap();
    assert_eq!((long.offset, long.size), (0, 0x1_0000));
    assert!(read_copy(&[0x81], 0).is_none());
}

#[test]
fn instructions_are_measured_and_applied() {
    let base = b"0123456789";
    let code = [0x90u8, 4, 3, b'x', b'y', b'z', 0x91, 8, 2];
    assert_eq!(scan_instructions(10, &code, 0), DeltaScan::Made(9));
    assert_eq!(apply_instructions(base, &code, 0, 9).unwrap(), b"0123xyz89".to_vec());
    assert!(apply_instructions(base, &code, 0, 8).is_none());
    assert_eq!(scan_instructions(9, &code, 0), DeltaScan::Malformed);
    assert_eq!(scan_instructions(10, &[0], 0), DeltaScan::Malformed);
    assert_eq!(scan_instructions(10, &[3, 1], 0), DeltaScan::Malformed);
    assert_eq!(scan_instructions(10, &[], 0), DeltaScan::Made(0));
}

#[test]
fn prefix_delta_rebuilds_its_target() {
    let base = noise(1, 70_000);
    let mut target = base[..69_000].to_vec();
    target.extend_from_slice(&noise(2, 300));
    let delta = encode_lcp_delta_bounded(&base, &target, 69_000, 10_000).unwrap();
    let first = read_varint(&delta, 0).unwrap();
    let second = read_varint(&delta, first.next).unwrap();
    assert_eq!((first.value, second.value), (70_000, 69_300));
    let made = apply_instructions(&base, &delta, second.next, 69_300).unwrap();
    assert_eq!(made, target);
    assert!(encode_lcp_delta_bounded(&base, &target, 69_000, 200).is_none());
}

#[test]
fn compression_is_bounded_and_reads_back() {
    let data = vec![b'a'; 8_000];
    let packed = compress_bounded(&data, 1_000, true).unwrap();
    assert!(packed.len() < 1_000);
    assert_eq!(inflate(&packed), data);
    assert_eq!(validate_zlib_stream(&packed, 8_000, true).unwrap(), data);
    assert!(compress_bounded(&noise(3, 2_000), 100, true).is_none());
}

#[test]
fn zlib_streams_are_checked_exactly() {
    let packed = compress_bounded(b"hello", 100, true).unwrap();
    assert!(validate_zlib_stream(&packed, 5, false).is_ok());
    assert_eq!(validate_zlib_stream(&packed, 4, true), Err(PackEntrySourceError::SizeMismatch));
    assert_eq!(
        validate_zlib_stream(&packed, 6, true),
        Err(PackEntrySourceError::InvalidCompressedStream)
    );
    let mut trailing = packed.clone();
    trailing.push(0);
    assert_eq!(
        validate_zlib_stream(&trailing, 5, true),
        Err(PackEntrySourceError::InvalidCompressedStream)
    );
    let cut = &packed[..packed.len() - 1];
    assert_eq!(
        validate_zlib_stream(cut, 5, true),
        Err(PackEntrySourceError::InvalidCompressedStream)
    );
}

#[test]
fn delta_instructions_are_validated_against_both_sizes() {
    let mut delta = Vec::new();
    push_varint(&mut delta, 10);
    push_varint(&mut delta, 4);
    delta.extend_from_slice(&[0x90, 4]);
    assert_eq!(validate_delta_instructions(&delta, 10, 4), Ok(()));
    assert_eq!(
        validate_delta_instructions(&delta, 11, 4),
        Err(PackEntrySourceError::InvalidDeltaHeader)
    );
    assert_eq!(
        validate_delta_instructions(&delta, 10, 5),
        Err(PackEntrySourceError::InvalidDeltaHeader)
    );
    assert_eq!(
        validate_delta_instructions(&[], 10, 4),
        Err(PackEntrySourceError::InvalidDeltaHeader)
    );
    delta.push(0);
    assert_eq!(
        validate_delta_instructions(&delta, 10, 4),
        Err(PackEntrySourceError::InvalidDeltaInstructions)
    );
}

#[test]
fn similar_objects_become_deltas() {
    let base = noise(7, 4_000);
    let mut target = base.clone();
    target.extend_from_slice(b"one more line");
    let plan = plan_bounded_deltas(
        vec![input(&base, Some("src/a.rs")), input(&target, Some("src/a.rs"))],
        DeltaPackOptions::default(),
        &mut DeltaWorkLimit::new(1 << 30),
    )
    .unwrap();
    assert!(matches!(
        plan.entries()[0].action,
        DeltaEntryAction::Direct(DeltaFallbackReason::NoCandidate)
    ));
    assert!(matches!(plan.entries()[1].action, DeltaEntryAction::Generated(_)));
    let report = plan.report();
    assert_eq!((report.generated_entries, report.direct_entries, report.reused_entries), (1, 1, 0));
    assert!(!report.work_exhausted);

    let mut writer = writer(2);
    writer.start().unwrap();
    let written = plan.write_to(&mut writer, PackReuseCapabilities::default()).unwrap();
    assert_eq!(written.written_entries, 2);
    writer.finish().unwrap();
    let pack = writer.into_sink().into_bytes().unwrap();
    let end = pack.len() - 20;
    assert_eq!(hash_bytes(HashAlgo::Sha1, &pack[..end]).to_bytes(), pack[end..].to_vec());
    assert!(end < 12 + base.len() + 200);
}

#[test]
fn small_or_unlike_objects_stay_direct() {
    let one = noise(8, 3_000);
    let two = noise(9, 3_000);
    let plan = plan_bounded_deltas(
        vec![input(&one, None), input(&two, None)],
        DeltaPackOptions::default(),
        &mut DeltaWorkLimit::new(1 << 30),
    )
    .unwrap();
    assert!(matches!(plan.entries()[1].action, DeltaEntryAction::Direct(_)));
    assert_eq!(plan.report().generated_entries, 0);
}

#[test]
fn exhausted_budgets_fall_back_to_direct() {
    let base = noise(7, 4_000);
    let mut target = base.clone();
    target.extend_from_slice(b"tail");
    let plan = plan_bounded_deltas(
        vec![input(&base, None), input(&target, None)],
        DeltaPackOptions::default(),
        &mut DeltaWorkLimit::new(0),
    )
    .unwrap();
    assert!(matches!(
        plan.entries()[1].action,
        DeltaEntryAction::Direct(DeltaFallbackReason::WorkBudget)
    ));
    assert!(plan.report().work_exhausted);
    let mut limited = DeltaWorkLimit::new(5);
    assert!(limited.charge(3));
    assert!(!limited.charge(3));
    assert_eq!(limited.remaining(), 2);
    assert_eq!(limited.checkpoints(), 2);
}

#[test]
fn delta_options_have_ceilings() {
    let good = DeltaPackOptions::default();
    assert!(good.validate().is_ok());
    let mut window = DeltaPackOptions::default();
    window.window = 257;
    assert_eq!(window.validate().err(), Some(DeltaPackOptionsError::Invalid));
    let mut ratio = DeltaPackOptions::default();
    ratio.max_expansion_denominator = 0;
    assert_eq!(ratio.validate().err(), Some(DeltaPackOptionsError::Invalid));
    let plan: Result<BoundedDeltaPackPlan, DeltaPackOptionsError> =
        plan_bounded_deltas(Vec::new(), window, &mut DeltaWorkLimit::new(1));
    assert!(matches!(plan.err(), Some(DeltaPackOptionsError::Invalid)));
}

#[test]
fn paths_prefer_the_same_name() {
    let path = |text: &str| Some(String::from(text));
    assert_eq!(path_score(&None, &path("a"), 100), 0);
    let same = path_score(&path("src/a.rs"), &path("src/a.rs"), 100);
    let name = path_score(&path("src/a.rs"), &path("lib/a.rs"), 100);
    let other = path_score(&path("src/a.rs"), &path("lib/b.c"), 100);
    assert!(same > name);
    assert!(name > other);
}

#[test]
fn deltas_must_save_enough() {
    let options = DeltaPackOptions::default();
    assert!(worth_delta(10, 10_000, options));
    assert!(!worth_delta(10_000, 10_000, options));
    assert!(!worth_delta(10_001, 10_000, options));
}

fn entry(kind: StoredPackEntryKind, header: &[u8], compressed: Vec<u8>, declared: u64, result: &[u8]) -> Result<ValidatedPackEntry, PackEntrySourceError> {
    let pack = PackMetadata {
        pack_checksum: vec![4; 20],
        object_count: 2,
        size_bytes: 12 + header.len() as u64 + compressed.len() as u64 + 20,
    };
    ValidatedPackEntry::from_prevalidated_pack(
        &pack,
        HashAlgo::Sha1,
        header,
        EntrySource {
            source_offset: 12,
            delta_base_header_bytes: 0,
            kind,
            declared_size: declared,
            result_size: result.len() as u64,
            result_oid: identity(result),
        },
        compressed,
    )
}

#[test]
fn direct_entries_are_reused() {
    let packed = compress_bounded(b"hello", 100, true).unwrap();
    let mut header = Vec::new();
    encode_header_u64(&mut header, 3, 5).unwrap();
    let kind = StoredPackEntryKind::Direct(ObjectKind::Blob);
    let stored = entry(kind, &header, packed.clone(), 5, b"hello").unwrap();
    assert_eq!(stored.kind(), kind);
    assert_eq!(stored.source_offset(), 12);
    assert_eq!(stored.source_pack_checksum(), vec![4; 20]);
    assert!(stored.matches_result(identity(b"hello"), &blob(b"hello")));
    assert!(!stored.matches_result(identity(b"hellx"), &blob(b"hello")));
    let plan = PackEntryPlan::from_validated_entry(
        &stored,
        &PackDependencySet::new(),
        PackReuseCapabilities { ofs_delta: false },
        12,
    );
    assert_eq!(plan.reused_kind(), Some(ObjectKind::Blob));
    let mut writer = writer(1);
    writer.start().unwrap();
    let report = writer.write_entry_plan(&plan, None).unwrap();
    assert_eq!(report.compressed_bytes, packed.len() as u64);
    writer.finish().unwrap();
    let pack = writer.into_sink().into_bytes().unwrap();
    assert_eq!(&pack[12..12 + header.len()], &header[..]);
    assert_eq!(&pack[12 + header.len()..pack.len() - 20], &packed[..]);
}

#[test]
fn stored_entries_that_lie_are_refused() {
    let packed = compress_bounded(b"hello", 100, true).unwrap();
    let mut header = Vec::new();
    encode_header_u64(&mut header, 3, 5).unwrap();
    let blob_kind = StoredPackEntryKind::Direct(ObjectKind::Blob);
    let tree_kind = StoredPackEntryKind::Direct(ObjectKind::Tree);
    assert_eq!(
        entry(tree_kind, &header, packed.clone(), 5, b"hello").err(),
        Some(PackEntrySourceError::TypeMismatch)
    );
    assert_eq!(
        entry(blob_kind, &header, packed.clone(), 6, b"hello!").err(),
        Some(PackEntrySourceError::SizeMismatch)
    );
    assert_eq!(
        entry(blob_kind, &[], packed.clone(), 5, b"hello").err(),
        Some(PackEntrySourceError::InvalidHeader)
    );
    assert_eq!(
        entry(blob_kind, &header, Vec::new(), 5, b"hello").err(),
        Some(PackEntrySourceError::EmptyCompressedStream)
    );
}

#[test]
fn delta_reuse_needs_a_proven_base() {
    let base = noise(11, 200);
    let mut delta = Vec::new();
    push_varint(&mut delta, 200);
    push_varint(&mut delta, 100);
    delta.extend_from_slice(&[0x90, 100]);
    let packed = compress_bounded(&delta, 100, true).unwrap();
    let target = base[..100].to_vec();
    let base_oid = identity(&base);
    let pack = PackMetadata { pack_checksum: vec![4; 20], object_count: 2, size_bytes: 500 };
    let mut header = Vec::new();
    encode_header_u64(&mut header, 7, delta.len() as u64).unwrap();
    let kind = StoredPackEntryKind::RefDelta {
        base: base_oid,
        base_size: 200,
        result_kind: ObjectKind::Blob,
    };
    let stored = ValidatedPackEntry::from_prevalidated_pack(
        &pack,
        HashAlgo::Sha1,
        &header,
        EntrySource {
            source_offset: 60,
            delta_base_header_bytes: 20,
            kind,
            declared_size: delta.len() as u64,
            result_size: 100,
            result_oid: identity(&target),
        },
        packed.clone(),
    )
    .unwrap();
    let mut sent = PackDependencySet::new();
    let unproven = PackEntryPlan::from_validated_entry(
        &stored,
        &sent,
        PackReuseCapabilities { ofs_delta: true },
        300,
    );
    assert!(matches!(
        unproven,
        PackEntryPlan::RecompressFallback(PackRecompressReason::UnprovenBase)
    ));
    sent.record_outgoing(base_oid, 12);
    assert_eq!(sent.outgoing_offset_for(base_oid), Some(12));
    let proven = PackEntryPlan::from_validated_entry(
        &stored,
        &sent,
        PackReuseCapabilities { ofs_delta: true },
        300,
    );
    assert!(matches!(proven, PackEntryPlan::RefDelta(_)));
    let lost: Result<ValidatedPackEntry, PackEntrySourceError> =
        Err(PackEntrySourceError::OutOfBounds);
    let plan = PackEntryPlan::from_source_validation(
        lost,
        &sent,
        PackReuseCapabilities { ofs_delta: true },
        300,
    );
    assert!(matches!(
        plan,
        PackEntryPlan::RecompressFallback(PackRecompressReason::InvalidSource(
            PackEntrySourceError::OutOfBounds
        ))
    ));
}

#[test]
fn recompression_needs_its_object() {
    let plan = PackEntryPlan::RecompressFallback(PackRecompressReason::UnprovenBase);
    let mut first = writer(1);
    first.start().unwrap();
    assert_eq!(
        first.write_entry_plan(&plan, None).unwrap_err().error,
        PackWriterError::MissingFallback
    );
    let mut second = writer(1);
    second.start().unwrap();
    let object = blob(b"hello");
    assert_eq!(second.write_entry_plan(&plan, Some(&object)).unwrap().decoded_bytes, 5);
    let report = second.finish().unwrap();
    assert_eq!(report.state, PackWriterState::Finished);
    let late = second.write_entry_plan(&plan, None).unwrap_err();
    assert_eq!(late.error, PackWriterError::MissingFallback);
    assert_eq!(late.report.state, PackWriterState::Aborted);
    assert_eq!(second.into_sink().state(), PackSinkState::Finished);
}

#[test]
fn ofs_distance_bytes_match_the_format() {
    let mut out = Vec::new();
    encode_ofs_delta_distance(&mut out, 300).unwrap();
    assert_eq!(out, vec![0x81, 0x2c]);
}

#[test]
fn comparisons_are_counted_up_to_the_limit() {
    let objects = || vec![
        input(&noise(21, 500), None),
        input(&noise(22, 500), None),
        input(&noise(23, 500), None),
    ];
    let plan = plan_bounded_deltas(
        objects(),
        DeltaPackOptions::default(),
        &mut DeltaWorkLimit::new(1 << 30),
    )
    .unwrap();
    assert_eq!(plan.report().candidate_comparisons, 3);

    let mut limited = DeltaPackOptions::default();
    limited.max_candidate_comparisons = 2;
    let plan = plan_bounded_deltas(objects(), limited, &mut DeltaWorkLimit::new(1 << 30)).unwrap();
    assert_eq!(plan.report().candidate_comparisons, 2);
    assert!(matches!(
        plan.entries()[1].action,
        DeltaEntryAction::Direct(DeltaFallbackReason::NoCandidate)
    ));
    assert!(matches!(
        plan.entries()[2].action,
        DeltaEntryAction::Direct(DeltaFallbackReason::ComparisonBudget)
    ));
    assert!(!plan.report().work_exhausted);
}

#[test]
fn windows_are_kept_per_kind() {
    let tree_bytes = noise(33, 400);
    let tree = DeltaObjectInput {
        oid: object_id(ObjectKind::Tree, &tree_bytes, HashAlgo::Sha1),
        object: StoredObject { kind: ObjectKind::Tree, data: tree_bytes },
        path_hint: None,
        stored: None,
    };
    let mut options = DeltaPackOptions::default();
    options.window = 1;
    let plan = plan_bounded_deltas(
        vec![input(&noise(31, 400), None), tree, input(&noise(32, 400), None)],
        options,
        &mut DeltaWorkLimit::new(u64::MAX),
    )
    .unwrap();
    assert_eq!(plan.report().candidate_comparisons, 1);
    assert_eq!(plan.report().peak_retained_base_bytes, 800);
}
