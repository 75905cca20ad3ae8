//! What the byte formats mean, told of the bytes themselves: identities and object headers, numbers
//! of seven-bit groups, entry headers and delta instructions.

use crate::bytes::{
    be_bytes, be_value, lemma_be_bytes_len, lemma_be_decode_encode, lemma_be_encode_decode,
    lemma_be_value_range, lemma_pow256_values, pow256,
};
use crate::delta_code::{copy_args, copy_offset, copy_size, delta_apply, flag};
use crate::digest::{canonical_id, sha1_digest, sha256_digest};
use crate::object::{decimal, id_from_digest, object_header, HashAlgo, ObjectId, ObjectKind};
use crate::varint::{entry_header, ofs_fold, varint};
use vstd::prelude::*;

verus! {

/// The number that seven-bit groups spell, the lowest first.
pub open spec fn groups_value(bytes: Seq<u8>) -> int
    decreases bytes.len(),
{
    if bytes.len() == 0 {
        0
    } else {
        bytes[0] % 128 + 128 * groups_value(bytes.skip(1))
    }
}

/// A number is spelled by its seven-bit groups, the lowest first: each but the last with the high
/// bit, and no group more than it takes.
pub proof fn law_numbers_are_spelled_in_groups(value: nat)
    ensures
        groups_value(varint(value)) == value,
        varint(value).len() >= 1,
        forall|i: int| 0 <= i < varint(value).len() - 1 ==> (#[trigger] varint(value)[i]) >= 128,
        varint(value).last() < 128,
        varint(value).len() > 1 ==> varint(value).last() > 0,
    decreases value,
{
    reveal_with_fuel(groups_value, 2);
    let bytes = varint(value);
    if value < 128 {
        assert(bytes.skip(1) =~= Seq::<u8>::empty());
    } else {
        let rest = varint(value / 128);
        law_numbers_are_spelled_in_groups(value / 128);
        assert(bytes.skip(1) =~= rest);
        assert(bytes[0] == 128 + value % 128);
        assert(bytes.last() == rest.last());
        assert forall|i: int| 0 <= i < bytes.len() - 1 implies (#[trigger] bytes[i]) >= 128 by {
            if i > 0 {
                assert(bytes[i] == rest[i - 1]);
            }
        }
    }
}

/// An entry header holds the type code in three bits of its first byte, the four lowest bits of the
/// size beside it, and the rest of the size in the groups that follow, if there is a rest.
pub proof fn law_entry_headers_hold_code_and_size(code: u8, size: nat)
    requires
        code < 8,
    ensures
        ({
            let bytes = entry_header(code, size);
            &&& bytes.len() >= 1
            &&& (bytes[0] / 16) % 8 == code
            &&& bytes[0] % 16 + 16 * groups_value(bytes.skip(1)) == size
            &&& bytes[0] >= 128 <==> size >= 16
            &&& bytes.len() == 1 <==> size < 16
        }),
{
    let bytes = entry_header(code, size);
    if size < 16 {
        assert(bytes.skip(1) =~= Seq::<u8>::empty());
        assert(bytes[0] == code * 16 + size);
    } else {
        law_numbers_are_spelled_in_groups(size / 16);
        assert(bytes.skip(1) =~= varint(size / 16));
        assert(bytes[0] == 128 + code * 16 + size % 16);
    }
}

/// A base distance is spelled highest group first, and each further group counts from one more than
/// what the groups before it spell.
pub proof fn law_distances_grow_by_groups(digits: Seq<u8>, digit: u8)
    ensures
        ofs_fold(seq![digit]) == digit % 128,
        digits.len() > 0 ==> ofs_fold(digits.push(digit)) == (ofs_fold(digits) + 1) * 128 + digit
            % 128,
{
    reveal_with_fuel(ofs_fold, 2);
    assert(seq![digit].drop_last() =~= Seq::<u8>::empty());
    assert(digits.push(digit).drop_last() =~= digits);
}

/// The number that decimal digits spell.
pub open spec fn digits_value(digits: Seq<u8>) -> int
    decreases digits.len(),
{
    if digits.len() == 0 {
        0
    } else {
        digits_value(digits.drop_last()) * 10 + (digits.last() - 48)
    }
}

/// A size is written in decimal digits, without a leading zero.
pub proof fn law_sizes_are_written_in_decimal(value: nat)
    ensures
        digits_value(decimal(value)) == value,
        decimal(value).len() >= 1,
        forall|i: int|
            0 <= i < decimal(value).len() ==> 48 <= (#[trigger] decimal(value)[i]) <= 57,
        decimal(value)[0] == 48 ==> value == 0,
    decreases value,
{
    reveal_with_fuel(digits_value, 2);
    let digits = decimal(value);
    if value < 10 {
        assert(digits.drop_last() =~= Seq::<u8>::empty());
    } else {
        law_sizes_are_written_in_decimal(value / 10);
        assert(digits.drop_last() =~= decimal(value / 10));
    }
}

/// The bytes of text that is ASCII.
pub open spec fn ascii(text: Seq<char>) -> Seq<u8> {
    Seq::new(text.len(), |i: int| text[i] as u8)
}

/// An object's header is the name of its kind, a blank, its size and a zero byte; its identity is the
/// digest of header and payload.
pub proof fn law_objects_are_named_by_kind_and_size(
    algo: HashAlgo,
    kind: ObjectKind,
    payload: Seq<u8>,
)
    ensures
        object_header(kind, payload.len()) == ascii(
            match kind {
                ObjectKind::Commit => "commit "@,
                ObjectKind::Tree => "tree "@,
                ObjectKind::Blob => "blob "@,
                ObjectKind::Tag => "tag "@,
            },
        ) + decimal(payload.len()) + seq![0u8],
        canonical_id(algo, kind, payload) == id_from_digest(
            algo,
            match algo {
                HashAlgo::Sha1 => sha1_digest(object_header(kind, payload.len()) + payload),
                HashAlgo::Sha256 => sha256_digest(object_header(kind, payload.len()) + payload),
            },
        ),
{
    reveal_strlit("commit ");
    reveal_strlit("tree ");
    reveal_strlit("blob ");
    reveal_strlit("tag ");
    let size = decimal(payload.len());
    match kind {
        ObjectKind::Commit => {
            assert(kind.name().push(0x20u8) =~= ascii("commit "@));
        },
        ObjectKind::Tree => {
            assert(kind.name().push(0x20u8) =~= ascii("tree "@));
        },
        ObjectKind::Blob => {
            assert(kind.name().push(0x20u8) =~= ascii("blob "@));
        },
        ObjectKind::Tag => {
            assert(kind.name().push(0x20u8) =~= ascii("tag "@));
        },
    }
    assert(object_header(kind, payload.len()) =~= kind.name().push(0x20u8) + size + seq![0u8]);
}

/// Kinds have the type codes one to four, in the order commit, tree, blob, tag.
pub proof fn law_kinds_have_their_codes(kind: ObjectKind, other: ObjectKind)
    ensures
        1 <= kind.code() <= 4,
        kind.code() == other.code() ==> kind == other,
        kind.name() == other.name() ==> kind == other,
        ObjectKind::Commit.code() < ObjectKind::Tree.code(),
        ObjectKind::Tree.code() < ObjectKind::Blob.code(),
        ObjectKind::Blob.code() < ObjectKind::Tag.code(),
{
    if kind != other {
        assert(kind.name().len() != other.name().len() || kind.name()[0] != other.name()[0]);
    }
}

/// Putting numbers side by side.
proof fn lemma_be_value_concat(a: Seq<u8>, b: Seq<u8>)
    ensures
        be_value(a + b) == be_value(a) * pow256(b.len()) + be_value(b),
    decreases b.len(),
{
    if b.len() == 0 {
        assert(a + b =~= a);
        assert(pow256(0) == 1);
        assert(be_value(a) * 1 == be_value(a));
    } else {
        let front = b.drop_last();
        lemma_be_value_concat(a, front);
        assert((a + b).drop_last() =~= a + front);
        assert(pow256(b.len()) == pow256(front.len()) * 256);
        let x = be_value(a);
        let p = pow256(front.len());
        assert((x * p) * 256 == x * (p * 256)) by (nonlinear_arith);
        assert((x * p + be_value(front)) * 256 == (x * p) * 256 + be_value(front) * 256)
            by (nonlinear_arith);
    }
}

/// The number that the bytes of an identity spell.
proof fn lemma_id_value(oid: ObjectId)
    ensures
        oid@.len() == oid.spec_algo().spec_len(),
        match oid {
            ObjectId::Sha1 { high, tail } => be_value(oid@) == high * 0x1_0000_0000 + tail,
            ObjectId::Sha256 { high, low } => be_value(oid@) == high
                * 0x1_0000_0000_0000_0000_0000_0000_0000_0000 + low,
        },
{
    lemma_pow256_values();
    match oid {
        ObjectId::Sha1 { high, tail } => {
            let a = be_bytes(high as int, 16);
            let b = be_bytes(tail as int, 4);
            lemma_be_bytes_len(high as int, 16);
            lemma_be_bytes_len(tail as int, 4);
            lemma_be_value_concat(a, b);
            lemma_be_decode_encode(high as int, 16);
            lemma_be_decode_encode(tail as int, 4);
        },
        ObjectId::Sha256 { high, low } => {
            let a = be_bytes(high as int, 16);
            let b = be_bytes(low as int, 16);
            lemma_be_bytes_len(high as int, 16);
            lemma_be_bytes_len(low as int, 16);
            lemma_be_value_concat(a, b);
            lemma_be_decode_encode(high as int, 16);
            lemma_be_decode_encode(low as int, 16);
        },
    }
}

/// An identity is zero exactly where its bytes spell zero, has as many bytes as its algorithm's
/// digests, and is told from every other of its algorithm by its bytes.
pub proof fn law_identities_are_their_bytes(oid: ObjectId, other: ObjectId)
    requires
        oid.spec_algo() == other.spec_algo(),
    ensures
        oid@.len() == match oid.spec_algo() {
            HashAlgo::Sha1 => 20nat,
            HashAlgo::Sha256 => 32,
        },
        oid.spec_is_zero() <==> be_value(oid@) == 0,
        oid@ == other@ ==> oid == other,
        ObjectId::spec_null(oid.spec_algo()).spec_is_zero(),
        ObjectId::spec_null(oid.spec_algo()).spec_algo() == oid.spec_algo(),
        oid.spec_is_zero() ==> oid == ObjectId::spec_null(oid.spec_algo()),
{
    lemma_id_value(oid);
    lemma_id_value(other);
}

/// Identities of one algorithm are ordered as the numbers that their bytes spell, and those of the
/// shorter digest come before those of the longer.
pub proof fn law_identities_are_ordered_by_their_bytes(oid: ObjectId, other: ObjectId)
    ensures
        oid.spec_algo() == other.spec_algo() ==> (oid.spec_before(other) <==> be_value(oid@)
            < be_value(other@)),
        oid.spec_algo() != other.spec_algo() ==> (oid.spec_before(other) <==> oid@.len()
            < other@.len()),
        oid.spec_before(other) || other.spec_before(oid) || oid == other,
        !(oid.spec_before(other) && other.spec_before(oid)),
        !oid.spec_before(oid),
{
    lemma_id_value(oid);
    lemma_id_value(other);
}

/// An identity made of a digest has the bytes of the digest.
pub proof fn law_digests_become_identities(algo: HashAlgo, digest: Seq<u8>)
    requires
        digest.len() == algo.spec_len(),
    ensures
        id_from_digest(algo, digest)@ == digest,
        id_from_digest(algo, digest).spec_algo() == algo,
{
    lemma_pow256_values();
    let high = digest.subrange(0, 16);
    lemma_be_value_range(high);
    lemma_be_encode_decode(high);
    match algo {
        HashAlgo::Sha1 => {
            let tail = digest.subrange(16, 20);
            lemma_be_value_range(tail);
            lemma_be_encode_decode(tail);
            assert(high + tail =~= digest);
        },
        HashAlgo::Sha256 => {
            let low = digest.subrange(16, 32);
            lemma_be_value_range(low);
            lemma_be_encode_decode(low);
            assert(high + low =~= digest);
        },
    }
}

/// Whether a bit of the opcode is set.
pub open spec fn has_bit(op: u8, weight: int) -> bool {
    (op as int / weight) % 2 == 1
}

/// A copy reads its offset from up to four bytes and its length from up to three, lowest first, each
/// there only where its bit is set and otherwise zero; a length of zero is the full 65536.
pub proof fn law_copies_read_their_arguments(code: Seq<u8>, at: int)
    requires
        0 <= at < code.len(),
        code[at] >= 128,
        at + 1 + copy_args(code[at]) <= code.len(),
    ensures
        ({
            let op = code[at];
            let a = at + 1;
            let b = a + if has_bit(op, 1) { 1int } else { 0 };
            let c = b + if has_bit(op, 2) { 1int } else { 0 };
            let d = c + if has_bit(op, 4) { 1int } else { 0 };
            let e = d + if has_bit(op, 8) { 1int } else { 0 };
            let f = e + if has_bit(op, 16) { 1int } else { 0 };
            let g = f + if has_bit(op, 32) { 1int } else { 0 };
            let end = g + if has_bit(op, 64) { 1int } else { 0 };
            let size = (if has_bit(op, 16) { code[e] as int } else { 0 }) + 256 * (if has_bit(
                op,
                32,
            ) { code[f] as int } else { 0 }) + 65_536 * (if has_bit(op, 64) {
                code[g] as int
            } else { 0 });
            &&& copy_offset(code, at) == (if has_bit(op, 1) { code[a] as int } else { 0 }) + 256
                * (if has_bit(op, 2) { code[b] as int } else { 0 }) + 65_536 * (if has_bit(op, 4) {
                code[c] as int
            } else { 0 }) + 16_777_216 * (if has_bit(op, 8) { code[d] as int } else { 0 })
            &&& copy_size(code, at) == if size == 0 { 65_536 } else { size }
            &&& at + 1 + copy_args(op) == end
            &&& 0 <= copy_offset(code, at) < 0x1_0000_0000
            &&& 0 < copy_size(code, at) < 0x100_0000
        }),
{
    let op = code[at];
    reveal(flag);
    assert(flag(op, 1) == 0 || flag(op, 1) == 1);
    assert(flag(op, 2) == 0 || flag(op, 2) == 1);
    assert(flag(op, 4) == 0 || flag(op, 4) == 1);
    assert(flag(op, 8) == 0 || flag(op, 8) == 1);
    assert(flag(op, 16) == 0 || flag(op, 16) == 1);
    assert(flag(op, 32) == 0 || flag(op, 32) == 1);
    assert(flag(op, 64) == 0 || flag(op, 64) == 1);
}

/// Instructions make the bytes of the first one and then those of the rest: literal bytes as they
/// stand, or a range of the base; none make nothing, zero is no instruction, and neither may reach
/// past its end.
pub proof fn law_instructions_make_their_bytes(base: Seq<u8>, code: Seq<u8>, at: int)
    requires
        0 <= at <= code.len(),
    ensures
        at == code.len() ==> delta_apply(base, code, at) == Some(Seq::<u8>::empty()),
        at < code.len() && code[at] == 0 ==> delta_apply(base, code, at) is None,
        at < code.len() && 0 < code[at] < 128 ==> {
            let end = at + 1 + code[at];
            let made = delta_apply(base, code, at);
            &&& end > code.len() ==> made is None
            &&& end <= code.len() ==> (made is Some <==> delta_apply(base, code, end) is Some)
            &&& end <= code.len() && made is Some ==> made->0 == code.subrange(at + 1, end)
                + delta_apply(base, code, end)->0
        },
        at < code.len() && code[at] >= 128 ==> {
            let end = at + 1 + copy_args(code[at]);
            let from = copy_offset(code, at);
            let to = from + copy_size(code, at);
            let made = delta_apply(base, code, at);
            &&& end > code.len() || to > base.len() ==> made is None
            &&& end <= code.len() && to <= base.len() ==> (made is Some <==> delta_apply(
                base,
                code,
                end,
            ) is Some)
            &&& made is Some ==> made->0 == base.subrange(from, to) + delta_apply(
                base,
                code,
                end,
            )->0
        },
{
}

/// The number that bytes spell, the most significant first.
pub open spec fn spelled_number(bytes: Seq<u8>) -> int
    decreases bytes.len(),
{
    if bytes.len() == 0 {
        0
    } else {
        spelled_number(bytes.drop_last()) * 256 + bytes.last()
    }
}

/// The number of values that so many bytes can spell.
pub open spec fn byte_values(width: nat) -> int
    decreases width,
{
    if width == 0 {
        1
    } else {
        256 * byte_values((width - 1) as nat)
    }
}

/// A number is spelled in so many bytes, and they spell that number again.
pub proof fn law_big_endian_numbers_read_back(value: int, width: nat)
    requires
        0 <= value < byte_values(width),
    ensures
        crate::bytes::be_bytes(value, width).len() == width,
        spelled_number(crate::bytes::be_bytes(value, width)) == value,
    decreases width,
{
    if width > 0 {
        let rest = value / 256;
        assert(0 <= rest < byte_values((width - 1) as nat)) by (nonlinear_arith)
            requires
                0 <= value < 256 * byte_values((width - 1) as nat),
                rest == value / 256,
        ;
        law_big_endian_numbers_read_back(rest, (width - 1) as nat);
        let bytes = crate::bytes::be_bytes(value, width);
        assert(bytes.drop_last() =~= crate::bytes::be_bytes(rest, (width - 1) as nat));
        assert(bytes.last() as int == value % 256);
        assert(value == rest * 256 + value % 256);
    }
}

/// The sixteen bytes of a quarantine's identity spell it.
pub proof fn law_quarantine_identities_read_back(id: crate::push_quarantine::QuarantineId)
    ensures
        id.spec_bytes().len() == 16,
        spelled_number(id.spec_bytes()) == id.value,
{
    reveal_with_fuel(byte_values, 17);
    assert(byte_values(16) == 0x1_0000_0000_0000_0000_0000_0000_0000_0000int);
    law_big_endian_numbers_read_back(id.value as int, 16);
}

/// A hexadecimal digit is the character of its value: a decimal digit below ten, and a small letter
/// from ten on.
pub proof fn law_hexadecimal_digits(value: int)
    requires
        0 <= value < 16,
    ensures
        value < 10 ==> crate::push_atomic_publication::hex_digit(value) == '0' as int + value,
        value >= 10 ==> crate::push_atomic_publication::hex_digit(value) == 'a' as int + value - 10,
{
}

/// A quarantine in memory heeds a fence exactly where it names that quarantine and its current
/// generation.
pub proof fn law_stale_fences_are_not_heeded(
    quarantine: crate::push_quarantine::MemoryPackQuarantine,
    fence: crate::push_quarantine::QuarantineFence,
)
    ensures
        quarantine.spec_admits(fence) <==> fence == (crate::push_quarantine::QuarantineFence {
            id: crate::push_quarantine::PackQuarantine::described(&quarantine).id,
            generation: crate::push_quarantine::PackQuarantine::described(&quarantine).generation,
        }),
{
}

} // verus!
