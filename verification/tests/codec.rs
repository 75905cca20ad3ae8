use grit_protocol::bytes::{copy_range, push_be_u32, push_be_u64, read_be, same_bytes, text_chars};
use grit_protocol::clock::{Duration, Timestamp, MAX_DURATION_NANOS, MAX_UNIX_NANOS};
use grit_protocol::digest::{hash_bytes, object_id, EntryChecksum, StreamHasher};
use grit_protocol::object::{object_header_bytes, HashAlgo, ObjectId, ObjectKind, TenantId};
use grit_protocol::oid_map::OidMap;
use grit_protocol::varint::{
    push_entry_header, push_ofs_distance, push_varint, read_entry_header_at, read_varint,
    read_varint_bounded,
};

fn hex(bytes: &[u8]) -> String {
    let mut text = String::new();
    for byte in bytes {
        text.push_str(&format!("{:02x}", byte));
    }
    text
}

#[test]
fn numbers_are_written_and_read_back() {
    let values = vec![
        0u64,
        1,
        127,
        128,
        300,
        16_383,
        16_384,
        u32::MAX as u64,
        (1u64 << 63) - 1,
        1u64 << 63,
        u64::MAX,
    ];
    for value in values {
        let mut bytes = vec![7u8];
        push_varint(&mut bytes, value);
        let read = read_varint(&bytes, 1).unwrap();
        assert_eq!(read.value, value);
        assert_eq!(read.next, bytes.len());
    }
    let mut exact = Vec::new();
    push_varint(&mut exact, 300);
    assert_eq!(exact, vec![0xac, 0x02]);
}

#[test]
fn malformed_numbers_are_refused() {
    assert!(read_varint(&[], 0).is_none());
    assert!(read_varint(&[0x80], 0).is_none());
    assert!(read_varint(&[0x80, 0x00], 0).is_none());
    assert!(read_varint(&[0xff; 11], 0).is_none());
    assert!(read_varint_bounded(&[0xac, 0x02], 0, 299).is_none());
    assert_eq!(read_varint_bounded(&[0xac, 0x02], 0, 300).unwrap().value, 300);
}

#[test]
fn entry_headers_are_written_and_read_back() {
    for code in [1u8, 2, 3, 4, 6, 7] {
        for size in [0u64, 15, 16, 2_047, 2_048, u64::MAX] {
            let mut bytes = Vec::new();
            push_entry_header(&mut bytes, code, size);
            let read = read_entry_header_at(&bytes, 0).unwrap();
            assert_eq!((read.code, read.size, read.next), (code, size, bytes.len()));
        }
    }
    let mut exact = Vec::new();
    push_entry_header(&mut exact, 3, 100);
    assert_eq!(exact, vec![0xb4, 0x06]);
    assert!(read_entry_header_at(&[0xb4], 0).is_none());
}

#[test]
fn ofs_distances_have_exact_bytes() {
    let table: Vec<(u64, Vec<u8>)> = vec![
        (1, vec![0x01]),
        (127, vec![0x7f]),
        (128, vec![0x80, 0x00]),
        (255, vec![0x80, 0x7f]),
        (256, vec![0x81, 0x00]),
        (16_511, vec![0xff, 0x7f]),
        (16_512, vec![0x80, 0x80, 0x00]),
    ];
    for (distance, expected) in table {
        let mut bytes = Vec::new();
        push_ofs_distance(&mut bytes, distance);
        assert_eq!(bytes, expected);
    }
}

#[test]
fn big_endian_numbers_round_trip() {
    let mut bytes = Vec::new();
    push_be_u32(&mut bytes, 0x0102_0304);
    push_be_u64(&mut bytes, 0x0506_0708_090a_0b0c);
    assert_eq!(bytes, vec![1, 2, 3, 4, 5, 6, 7, 8, 9, 10, 11, 12]);
    assert_eq!(read_be(&bytes, 0, 4), 0x0102_0304);
    assert_eq!(read_be(&bytes, 4, 12), 0x0506_0708_090a_0b0c);
    assert_eq!(copy_range(&bytes, 1, 3), vec![2, 3]);
    assert!(same_bytes(&[1, 2], &[1, 2]));
    assert!(!same_bytes(&[1, 2], &[1, 3]));
    assert_eq!(text_chars(&String::from("ä/")), vec!['ä', '/']);
}

#[test]
fn object_identities_are_canonical() {
    let empty_blob = object_id(ObjectKind::Blob, b"", HashAlgo::Sha1);
    assert_eq!(hex(&empty_blob.to_bytes()), "e69de29bb2d1d6434b8b29ae775ad8c2e48c5391");
    let empty_tree = object_id(ObjectKind::Tree, b"", HashAlgo::Sha1);
    assert_eq!(hex(&empty_tree.to_bytes()), "4b825dc642cb6eb9a060e54bf8d69288fbee4904");
    let hello = object_id(ObjectKind::Blob, b"hello", HashAlgo::Sha1);
    assert_eq!(hex(&hello.to_bytes()), "b6fc4c620b67d95f953a5c1c1230aaab5db5a1b0");
    let wide = object_id(ObjectKind::Blob, b"", HashAlgo::Sha256);
    assert_eq!(
        hex(&wide.to_bytes()),
        "473a0f4c3be8a93681a267e3b1e9a7dcda1185436fe141f7749120a303721813"
    );
    assert_eq!(wide.algo(), HashAlgo::Sha256);
}

#[test]
fn digests_do_not_depend_on_chunks() {
    let whole = hash_bytes(HashAlgo::Sha1, b"abc");
    assert_eq!(hex(&whole.to_bytes()), "a9993e364706816aba3e25717850c26c9cd0d89d");
    let mut parts = StreamHasher::new(HashAlgo::Sha1);
    parts.update(b"a");
    parts.update(b"bc");
    assert_eq!(parts.finish(), whole);
    let wide = hash_bytes(HashAlgo::Sha256, b"abc");
    assert_eq!(
        hex(&wide.to_bytes()),
        "ba7816bf8f01cfea414140de5dae2223b00361a396177a9cb410ff61f20015ad"
    );
    let mut wide_parts = StreamHasher::new(HashAlgo::Sha256);
    wide_parts.update(b"ab");
    wide_parts.update(b"c");
    assert_eq!(wide_parts.finish(), wide);
}

#[test]
fn entry_checksum_is_crc32() {
    let mut checksum = EntryChecksum::new();
    checksum.update(b"1234");
    checksum.update(b"56789");
    assert_eq!(checksum.finish(), 0xcbf4_3926);
    assert_eq!(EntryChecksum::new().finish(), 0);
}

#[test]
fn identities_parse_and_order() {
    assert!(ObjectId::from_bytes(&[0; 19]).is_none());
    assert!(ObjectId::from_bytes(&[0; 21]).is_none());
    let low = ObjectId::from_bytes(&[1; 20]).unwrap();
    let high = ObjectId::from_bytes(&[2; 20]).unwrap();
    let wide = ObjectId::from_bytes(&[0; 32]).unwrap();
    assert!(low.before(high));
    assert!(!high.before(low));
    assert!(!low.before(low));
    assert!(high.before(wide));
    assert_eq!(low.to_bytes(), vec![1; 20]);
    assert!(ObjectId::null(HashAlgo::Sha1).is_zero());
    assert!(wide.is_zero());
    assert!(!low.is_zero());
}

#[test]
fn object_headers_are_spelled() {
    assert_eq!(object_header_bytes(ObjectKind::Commit, 0), b"commit 0\0".to_vec());
    assert_eq!(object_header_bytes(ObjectKind::Tag, 1_234), b"tag 1234\0".to_vec());
    assert_eq!(HashAlgo::Sha1.len(), 20);
    assert_eq!(HashAlgo::Sha256.len(), 32);
    let name = TenantId { value: String::from("a") };
    assert!(name.same(&name.clone()));
}

#[test]
fn identity_map_keeps_the_first_or_the_last() {
    let a = ObjectId::from_bytes(&[1; 20]).unwrap();
    let b = ObjectId::from_bytes(&[2; 32]).unwrap();
    let mut map = OidMap::new();
    assert!(map.insert_new(a, 10));
    assert!(!map.insert_new(a, 11));
    assert_eq!(map.get(a), Some(10));
    map.insert(a, 12);
    map.insert(b, 13);
    assert_eq!(map.get(a), Some(12));
    assert_eq!(map.len(), 2);
    assert!(map.contains(b));
    let mut keys = map.keys();
    keys.sort_by_key(|key| key.to_bytes().len());
    assert_eq!(keys, vec![a, b]);
}

#[test]
fn spans_and_instants_stop_at_their_bounds() {
    let longest = Duration { nanos: MAX_DURATION_NANOS };
    assert_eq!(longest.checked_add(Duration { nanos: 1 }), None);
    assert_eq!(longest.saturating_add(Duration { nanos: 1 }), longest);
    let last = Timestamp { unix_nanos: MAX_UNIX_NANOS };
    assert_eq!(last.checked_add(Duration { nanos: 1 }), None);
    let start = Timestamp { unix_nanos: 5 };
    assert_eq!(start.checked_add(Duration { nanos: 3 }), Some(Timestamp { unix_nanos: 8 }));
}

#[test]
fn source_headers_spell_one_entry() {
    assert_eq!(grit_protocol::pack_entry_reuse::decode_source_header(&[0x35]), Ok((3, 5, 1)));
    assert_eq!(
        grit_protocol::pack_entry_reuse::decode_source_header(&[0xbc, 0x12]),
        Ok((3, 300, 2))
    );
    assert_eq!(
        grit_protocol::pack_entry_reuse::decode_source_header(&[0xb5, 0x00]),
        Err(grit_protocol::pack_entry_reuse::PackEntrySourceError::InvalidHeader)
    );
    assert_eq!(
        grit_protocol::pack_entry_reuse::decode_source_header(&[0x35, 0x35]),
        Err(grit_protocol::pack_entry_reuse::PackEntrySourceError::InvalidHeader)
    );
    assert_eq!(
        grit_protocol::pack_entry_reuse::decode_source_header(&[0xff; 11]),
        Err(grit_protocol::pack_entry_reuse::PackEntrySourceError::ByteOverflow)
    );
}
