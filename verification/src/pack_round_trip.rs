//! What the PACK writer writes, the PACK validator reads back.

use crate::bytes::{be_bytes, lemma_be_bytes_len, lemma_be_decode_encode, lemma_pow256_values};
use crate::digest::{canonical_id, crc32_of};
use crate::object::{HashAlgo, ObjectId, ObjectKind};
use crate::pack_writer::{object_appended, pack_header};
use crate::push_pack_validation::{
    announces, entry_placed, entry_resolved, index_of, next_offset, row_of, EntryDependency,
    ParsedEntry, PushPackByteSpan, PushPackIndexRow, ResolvedEntry,
};
use crate::varint::{entry_header, holds_at};
use vstd::prelude::*;

verus! {

/// Object `i` was appended to output `i`, which made output `i + 1`.
pub open spec fn step_written(
    outputs: Seq<Seq<u8>>,
    objects: Seq<(ObjectKind, Seq<u8>)>,
    i: int,
) -> bool {
    object_appended(outputs[i], outputs[i + 1], objects[i].0, objects[i].1)
}

/// The outputs of a writer that starts a PACK and appends one object after the other.
pub open spec fn written(outputs: Seq<Seq<u8>>, objects: Seq<(ObjectKind, Seq<u8>)>) -> bool {
    &&& objects.len() <= u32::MAX
    &&& outputs.len() == objects.len() + 1
    &&& outputs[0] == pack_header(objects.len() as u32)
    &&& outputs.last().len() <= u64::MAX
    &&& forall|i: int| 0 <= i < objects.len() ==> #[trigger] step_written(outputs, objects, i)
    &&& forall|i: int| 0 <= i < objects.len() ==> (#[trigger] objects[i]).1.len() <= u64::MAX
}

/// The identity of object `i`.
pub open spec fn identity(
    objects: Seq<(ObjectKind, Seq<u8>)>,
    algo: HashAlgo,
    i: int,
) -> ObjectId {
    canonical_id(algo, objects[i].0, objects[i].1)
}

/// The entry that object `i` became.
pub open spec fn written_entry(
    outputs: Seq<Seq<u8>>,
    objects: Seq<(ObjectKind, Seq<u8>)>,
    algo: HashAlgo,
    i: int,
) -> ParsedEntry {
    let offset = outputs[i].len();
    let header = entry_header(objects[i].0.code(), objects[i].1.len()).len();
    let end = outputs[i + 1].len();
    ParsedEntry {
        ordinal: i as u32,
        entry_offset: offset as u64,
        header: PushPackByteSpan { offset: offset as u64, length: header as u64 },
        base_header: PushPackByteSpan { offset: (offset + header) as u64, length: 0 },
        compressed: PushPackByteSpan {
            offset: (offset + header) as u64,
            length: (end - offset - header) as u64,
        },
        declared_size: objects[i].1.len() as u64,
        crc32: crc32_of(outputs[i + 1].skip(offset as int)),
        dependency: EntryDependency::Direct(objects[i].0),
        resolved: Some(
            ResolvedEntry {
                oid: identity(objects, algo, i),
                kind: objects[i].0,
                size: objects[i].1.len() as u64,
                depth: 0,
                external: false,
            },
        ),
    }
}

/// The entries that the objects became.
pub open spec fn written_entries(
    outputs: Seq<Seq<u8>>,
    objects: Seq<(ObjectKind, Seq<u8>)>,
    algo: HashAlgo,
) -> Seq<ParsedEntry> {
    Seq::new(objects.len(), |i: int| written_entry(outputs, objects, algo, i))
}

/// The payloads of the objects.
pub open spec fn payloads_of(objects: Seq<(ObjectKind, Seq<u8>)>) -> Seq<Seq<u8>> {
    objects.map_values(|object: (ObjectKind, Seq<u8>)| object.1)
}

/// The index rows of the entries.
pub open spec fn written_rows(
    outputs: Seq<Seq<u8>>,
    objects: Seq<(ObjectKind, Seq<u8>)>,
    algo: HashAlgo,
) -> Seq<PushPackIndexRow> {
    Seq::new(objects.len(), |i: int| row_of(written_entries(outputs, objects, algo), i))
}

/// Every output stays at the front of the later ones.
proof fn lemma_front_stays(
    outputs: Seq<Seq<u8>>,
    objects: Seq<(ObjectKind, Seq<u8>)>,
    i: int,
    j: int,
)
    requires
        written(outputs, objects),
        0 <= i <= j <= objects.len(),
    ensures
        12 <= outputs[i].len() <= outputs[j].len(),
        outputs[j].take(outputs[i].len() as int) == outputs[i],
    decreases j,
{
    if j == 0 {
        lemma_be_bytes_len(2, 4);
        lemma_be_bytes_len(objects.len() as int, 4);
        assert(outputs[j].take(outputs[i].len() as int) =~= outputs[i]);
    } else if i == j {
        lemma_front_stays(outputs, objects, i - 1, j - 1);
        assert(step_written(outputs, objects, i - 1));
        assert(outputs[j].take(outputs[i].len() as int) =~= outputs[i]);
    } else {
        lemma_front_stays(outputs, objects, i, j - 1);
        assert(step_written(outputs, objects, j - 1));
        let before = outputs[j - 1];
        let front = before + entry_header(objects[j - 1].0.code(), objects[j - 1].1.len());
        let cut = outputs[i].len() as int;
        assert(outputs[j].take(cut) =~= outputs[j].take(front.len() as int).take(cut));
        assert(front.take(cut) =~= before.take(cut));
    }
}

/// A PACK of written objects reads back: its header announces them, its entries tile it up to the
/// trailer, and entry `i` is a direct entry that inflates to object `i` and has its identity.
pub proof fn law_written_pack_reads_back(
    outputs: Seq<Seq<u8>>,
    objects: Seq<(ObjectKind, Seq<u8>)>,
    algo: HashAlgo,
    trailer: Seq<u8>,
)
    requires
        written(outputs, objects),
        forall|i: int, j: int|
            0 <= i < j < objects.len() ==> #[trigger] identity(objects, algo, i)
                != #[trigger] identity(objects, algo, j),
    ensures
        announces(outputs.last() + trailer, objects.len() as int),
        index_of(
            outputs.last() + trailer,
            algo,
            outputs.last().len() as int,
            written_rows(outputs, objects, algo),
            written_entries(outputs, objects, algo),
            payloads_of(objects),
        ),
{
    let pack = outputs.last() + trailer;
    let count = objects.len() as int;
    let body_end = outputs.last().len() as int;
    let entries = written_entries(outputs, objects, algo);
    let rows = written_rows(outputs, objects, algo);
    let payloads = payloads_of(objects);
    lemma_front_stays(outputs, objects, 0, count);
    assert(pack.take(outputs[0].len() as int) =~= outputs.last().take(outputs[0].len() as int));
    lemma_header_announces(outputs[0], pack, objects.len() as u32);
    assert forall|i: int| 0 <= i < count implies #[trigger] entry_placed(
        pack,
        algo,
        body_end,
        entries,
        i,
    ) && entry_resolved(pack, algo, entries, payloads, i) by {
        lemma_entry_reads_back(outputs, objects, algo, trailer, i);
    }
    assert(next_offset(entries, count) == body_end) by {
        if count > 0 {
            lemma_entry_reads_back(outputs, objects, algo, trailer, count - 1);
        } else {
            lemma_be_bytes_len(2, 4);
            lemma_be_bytes_len(count, 4);
        }
    }
    assert forall|i: int| 0 <= i < entries.len() implies #[trigger] entry_resolved(
        pack,
        algo,
        entries,
        payloads,
        i,
    ) by {
        assert(entry_placed(pack, algo, body_end, entries, i));
    }
    assert forall|i: int, j: int|
        #![trigger rows[i], rows[j]]
        0 <= i < j < rows.len() implies rows[i].oid != rows[j].oid by {
        assert(rows[i].oid == identity(objects, algo, i));
        assert(rows[j].oid == identity(objects, algo, j));
    }
}

/// The header of a written PACK announces its entries.
proof fn lemma_header_announces(header: Seq<u8>, pack: Seq<u8>, count: u32)
    requires
        header == pack_header(count),
        12 <= pack.len(),
        pack.len() >= header.len(),
        pack.take(header.len() as int) == header,
    ensures
        announces(pack, count as int),
{
    lemma_be_bytes_len(2, 4);
    lemma_be_bytes_len(count as int, 4);
    lemma_pow256_values();
    lemma_be_decode_encode(2, 4);
    lemma_be_decode_encode(count as int, 4);
    let word = seq![0x50u8, 0x41u8, 0x43u8, 0x4bu8];
    assert(header.len() == 12);
    assert forall|k: int| 0 <= k < 12 implies pack[k] == header[k] by {
        assert(pack.take(12)[k] == pack[k]);
    }
    assert(pack.subrange(0, 4) =~= word);
    assert(pack.subrange(4, 8) =~= be_bytes(2, 4));
    assert(pack.subrange(8, 12) =~= be_bytes(count as int, 4));
}

/// One written entry reads back.
proof fn lemma_entry_reads_back(
    outputs: Seq<Seq<u8>>,
    objects: Seq<(ObjectKind, Seq<u8>)>,
    algo: HashAlgo,
    trailer: Seq<u8>,
    i: int,
)
    requires
        written(outputs, objects),
        0 <= i < objects.len(),
    ensures
        written_entries(outputs, objects, algo)[i].compressed.end() == outputs[i + 1].len(),
        entry_placed(
            outputs.last() + trailer,
            algo,
            outputs.last().len() as int,
            written_entries(outputs, objects, algo),
            i,
        ),
        entry_resolved(
            outputs.last() + trailer,
            algo,
            written_entries(outputs, objects, algo),
            payloads_of(objects),
            i,
        ),
{
    let pack = outputs.last() + trailer;
    let body_end = outputs.last().len() as int;
    let entries = written_entries(outputs, objects, algo);
    let entry = entries[i];
    let count = objects.len() as int;
    let (kind, data) = objects[i];
    assert(entry == written_entry(outputs, objects, algo, i));
    lemma_front_stays(outputs, objects, i, i + 1);
    lemma_front_stays(outputs, objects, i + 1, count);
    assert(step_written(outputs, objects, i));
    let after = outputs[i + 1];
    let offset = outputs[i].len() as int;
    let header = entry_header(kind.code(), data.len());
    let front = outputs[i] + header;
    assert(objects[i].1.len() <= u64::MAX);
    assert forall|k: int| 0 <= k < after.len() implies pack[k] == after[k] by {
        assert(outputs.last().take(after.len() as int)[k] == outputs.last()[k]);
    }
    assert(entry.compressed.of(pack) =~= after.skip(front.len() as int));
    assert(pack.subrange(offset, after.len() as int) =~= after.skip(offset));
    assert(holds_at(pack, offset, header)) by {
        assert forall|k: int| 0 <= k < header.len() implies #[trigger] header[k] == pack[offset + k] by {
            assert(after.take(front.len() as int)[offset + k] == front[offset + k]);
        }
        assert(pack.subrange(offset, offset + header.len()) =~= header);
    }
    if i > 0 {
        lemma_front_stays(outputs, objects, i - 1, i);
        assert(step_written(outputs, objects, i - 1));
        assert(entries[i - 1] == written_entry(outputs, objects, algo, i - 1));
    } else {
        lemma_be_bytes_len(2, 4);
        lemma_be_bytes_len(count, 4);
    }
    assert(entry.shaped(pack, algo, body_end));
}

} // verus!
