//! Conservative planning for reuse of immutable compressed PACK entries.

use crate::bytes::{append_bytes, copy_range};
use crate::delta_code::{delta_apply, delta_scan, scan_instructions, DeltaScan};
use crate::object::{HashAlgo, ObjectId, ObjectKind, StoredObject};
use crate::oid_map::OidMap;
use crate::pack_writer::PackWriterError;
use crate::varint::{
    entry_header, holds_at, ofs_distance, push_entry_header, push_ofs_distance,
    read_entry_header_at, two64, varint,
};
use crate::zlib::{
    decompress_new, decompress_step, decompress_total_in, decompress_total_out, inflate_input, inflate_outcome,
    inflate_output, zeroed, zlib_decoded, ZlibStatus,
};
use vstd::prelude::*;

verus! {

/// Maximum encoded PACK entry header accepted from a validated source pack.
pub const MAX_REUSED_ENTRY_HEADER_BYTES: usize = 16;

/// Maximum inflated delta bytes retained temporarily while validating instructions.
pub const MAX_REUSED_DELTA_INSTRUCTION_BYTES: usize = 67_108_864;

/// Room that one inflating call is given.
pub const INFLATE_CHUNK_BYTES: usize = 8_192;

/// Immutable metadata of one stored pack.
#[derive(Debug)]
pub struct PackMetadata {
    /// Trailer checksum.
    pub pack_checksum: Vec<u8>,
    /// Entry count.
    pub object_count: u64,
    /// Complete size including header and trailer.
    pub size_bytes: u64,
}

/// Source representation of a previously validated PACK entry.
#[derive(Clone, Copy, Debug, PartialEq, Eq, Structural)]
pub enum StoredPackEntryKind {
    /// Complete non-delta object representation.
    Direct(ObjectKind),
    /// Delta instructions whose base is named by object ID.
    RefDelta {
        /// Resolved base object ID.
        base: ObjectId,
        /// Decoded base size.
        base_size: u64,
        /// Final object kind after applying the delta.
        result_kind: ObjectKind,
    },
    /// Delta instructions whose source offset was resolved to an object ID.
    OfsDelta {
        /// Resolved base object ID; the source-pack distance is not retained.
        base: ObjectId,
        /// Decoded base size.
        base_size: u64,
        /// Final object kind after applying the delta.
        result_kind: ObjectKind,
    },
}

impl StoredPackEntryKind {
    /// The type code of an entry of this kind.
    pub open spec fn code(self) -> u8 {
        match self {
            StoredPackEntryKind::Direct(kind) => kind.code(),
            StoredPackEntryKind::OfsDelta { .. } => 6,
            StoredPackEntryKind::RefDelta { .. } => 7,
        }
    }

    /// The entry is a delta.
    pub open spec fn is_delta(self) -> bool {
        !(self is Direct)
    }

    /// The decoded size of the delta's base.
    pub open spec fn delta_base_size(self) -> u64 {
        match self {
            StoredPackEntryKind::Direct(_) => 0,
            StoredPackEntryKind::RefDelta { base_size, .. } => base_size,
            StoredPackEntryKind::OfsDelta { base_size, .. } => base_size,
        }
    }

    /// The delta's base is an identity of another algorithm, or all zeros.
    pub open spec fn base_invalid(self, algo: HashAlgo) -> bool {
        match self {
            StoredPackEntryKind::Direct(_) => false,
            StoredPackEntryKind::RefDelta { base, .. } => base.spec_algo() != algo
                || base.spec_is_zero(),
            StoredPackEntryKind::OfsDelta { base, .. } => base.spec_algo() != algo
                || base.spec_is_zero(),
        }
    }

    /// The base header of an entry of this kind cannot have this length.
    pub open spec fn base_header_invalid(self, length: int) -> bool {
        match self {
            StoredPackEntryKind::Direct(_) => length != 0,
            StoredPackEntryKind::RefDelta { base, .. } => length != base.spec_algo().spec_len(),
            StoredPackEntryKind::OfsDelta { .. } => length < 1 || length > 10,
        }
    }

    fn type_code(self) -> (code: u8)
        ensures
            code == self.code(),
            1 <= code <= 7,
    {
        match self {
            StoredPackEntryKind::Direct(kind) => kind.pack_type_code(),
            StoredPackEntryKind::OfsDelta { .. } => 6,
            StoredPackEntryKind::RefDelta { .. } => 7,
        }
    }
}

/// Structural source-pack validation failure that makes compressed reuse ineligible.
#[derive(Clone, Copy, Debug, PartialEq, Eq, Structural)]
pub enum PackEntrySourceError {
    /// Pack metadata checksum width or total size is inconsistent.
    InvalidPack,
    /// Entry does not fit completely before the source trailer.
    OutOfBounds,
    /// Encoded source entry header is truncated, oversized or non-canonical.
    InvalidHeader,
    /// Header type differs from the validated kind.
    TypeMismatch,
    /// Header-declared size differs from validated metadata.
    SizeMismatch,
    /// A retained zlib stream cannot be empty.
    EmptyCompressedStream,
    /// Retained bytes are not exactly one complete zlib stream of the declared size.
    InvalidCompressedStream,
    /// Delta header sizes differ from resolved metadata.
    InvalidDeltaHeader,
    /// Delta instructions are malformed or make another size.
    InvalidDeltaInstructions,
    /// Delta validation would exceed its bounded temporary allocation.
    DeltaInstructionsTooLarge,
    /// Size conversion or bound arithmetic overflowed.
    ByteOverflow,
}

/// The sum of a base-128 digit run from `at` on, least significant first.
pub open spec fn digits_value(bytes: Seq<u8>, at: int, count: nat) -> int
    decreases count,
{
    if count == 0 {
        0
    } else {
        bytes[at] % 128 + 128 * digits_value(bytes, at + 1, (count - 1) as nat)
    }
}

/// Where a size ends in a delta header: at most nine continuation bytes, then a final byte.
pub open spec fn size_ends(bytes: Seq<u8>, at: int, count: nat) -> bool {
    &&& 0 <= at
    &&& 1 <= count <= 10
    &&& at + count <= bytes.len()
    &&& bytes[at + count - 1] < 128
    &&& forall|i: int| at <= i < at + count - 1 ==> #[trigger] bytes[i] >= 128
}

/// What a delta header size at `at` reads as: its value modulo 2^64 and the position after it.
pub open spec fn reads_size(bytes: Seq<u8>, at: int, value: u64, next: int) -> bool {
    &&& at < next
    &&& size_ends(bytes, at, (next - at) as nat)
    &&& value == digits_value(bytes, at, (next - at) as nat) % two64()
}

/// No size stands at `at`.
pub open spec fn no_size(bytes: Seq<u8>, at: int) -> bool {
    forall|count: nat| !#[trigger] size_ends(bytes, at, count)
}

/// Adding one more digit above a run.
proof fn lemma_digits_snoc(bytes: Seq<u8>, at: int, count: nat)
    ensures
        digits_value(bytes, at, count + 1) == digits_value(bytes, at, count)
            + crate::varint::pow128(count) * (bytes[at + count] % 128),
    decreases count,
{
    if count == 0 {
        reveal_with_fuel(digits_value, 2);
        assert(crate::varint::pow128(0) == 1);
    } else {
        lemma_digits_snoc(bytes, at + 1, (count - 1) as nat);
        let low = bytes[at] % 128;
        let power = crate::varint::pow128((count - 1) as nat);
        let top = bytes[at + count] % 128;
        assert(crate::varint::pow128(count) == 128 * power);
        assert(digits_value(bytes, at, count + 1) == low + 128 * digits_value(
            bytes,
            at + 1,
            count,
        ));
        assert(128 * (power * top) == (128 * power) * top) by (nonlinear_arith);
    }
}

/// A digit run is below the power of 128 of its length.
proof fn lemma_digits_range(bytes: Seq<u8>, at: int, count: nat)
    ensures
        0 <= digits_value(bytes, at, count) < crate::varint::pow128(count),
    decreases count,
{
    if count > 0 {
        lemma_digits_range(bytes, at + 1, (count - 1) as nat);
    }
}

/// Reads one size of a delta header.
fn decode_delta_size(bytes: &[u8], start: usize) -> (result: Result<
    (u64, usize),
    PackEntrySourceError,
>)
    ensures
        match result {
            Ok((value, next)) => reads_size(bytes@, start as int, value, next as int),
            Err(error) => error == PackEntrySourceError::InvalidDeltaHeader && no_size(
                bytes@,
                start as int,
            ),
        },
{
    let mut value: u64 = 0;
    let mut power: u64 = 1;
    let mut digits: usize = 0;
    let mut cursor: usize = start;
    loop
        invariant
            cursor == start + digits,
            digits <= 9,
            digits == 0 || cursor <= bytes@.len(),
            power == crate::varint::pow128(digits as nat),
            value == digits_value(bytes@, start as int, digits as nat),
            value < power,
            forall|i: int| start <= i < cursor ==> #[trigger] bytes@[i] >= 128,
        decreases 10 - digits,
    {
        if cursor >= bytes.len() {
            proof {
                assert forall|count: nat| !#[trigger] size_ends(bytes@, start as int, count) by {
                    if size_ends(bytes@, start as int, count) {
                        assert(bytes@[start + count - 1] < 128);
                    }
                }
            }
            return Err(PackEntrySourceError::InvalidDeltaHeader);
        }
        let byte: u8 = bytes[cursor];
        let digit: u64 = (byte % 128) as u64;
        proof {
            lemma_digits_snoc(bytes@, start as int, digits as nat);
            crate::varint::lemma_pow128_values();
            lemma_small_powers(digits as nat);
            assert(power * digit <= power * 127) by (nonlinear_arith)
                requires
                    digit <= 127,
                    power >= 0,
            ;
        }
        if digits == 9 {
            if byte >= 128 {
                proof {
                    assert forall|count: nat| !#[trigger] size_ends(
                        bytes@,
                        start as int,
                        count,
                    ) by {
                        if size_ends(bytes@, start as int, count) {
                            assert(bytes@[start + count - 1] < 128);
                        }
                    }
                }
                return Err(PackEntrySourceError::InvalidDeltaHeader);
            }
            let ghost low = value as int;
            value = value + (digit % 2) * 0x8000_0000_0000_0000;
            proof {
                let all = digits_value(bytes@, start as int, 10);
                assert(all == low + 0x8000_0000_0000_0000 * digit);
                assert(all % two64() == value);
                assert(size_ends(bytes@, start as int, 10));
            }
            return Ok((value, cursor + 1));
        }
        value = value + power * digit;
        cursor = cursor + 1;
        if byte < 128 {
            proof {
                assert(size_ends(bytes@, start as int, (digits + 1) as nat));
                lemma_small_powers((digits + 1) as nat);
                lemma_digits_range(bytes@, start as int, (digits + 1) as nat);
            }
            return Ok((value, cursor));
        }
        proof {
            lemma_small_powers((digits + 1) as nat);
            lemma_digits_range(bytes@, start as int, (digits + 1) as nat);
        }
        power = power * 128;
        digits = digits + 1;
    }
}

/// Powers of 128 of at most nine digits fit 63 bits, and each is 128 times the one before.
proof fn lemma_small_powers(digits: nat)
    requires
        digits <= 9,
    ensures
        0 < crate::varint::pow128(digits) <= 0x8000_0000_0000_0000,
        digits < 9 ==> crate::varint::pow128(digits) * 128 <= 0x8000_0000_0000_0000,
        crate::varint::pow128((digits + 1) as nat) == 128 * crate::varint::pow128(digits),
    decreases 9 - digits,
{
    if digits == 9 {
        crate::varint::lemma_pow128_values();
    } else {
        lemma_small_powers((digits + 1) as nat);
        assert(crate::varint::pow128((digits + 1) as nat) == 128 * crate::varint::pow128(digits));
    }
}

/// A delta starts with these two sizes, and its instructions stand from `body` on.
pub open spec fn delta_header(delta: Seq<u8>, base_size: u64, result_size: u64, body: int) -> bool {
    exists|middle: int|
        #[trigger] reads_size(delta, 0, base_size, middle) && reads_size(
            delta,
            middle,
            result_size,
            body,
        )
}

/// A delta that turns a base of `base_size` bytes into `result_size` bytes.
pub open spec fn delta_valid(delta: Seq<u8>, base_size: u64, result_size: u64) -> bool {
    exists|body: int|
        #[trigger] delta_header(delta, base_size, result_size, body) && delta_scan(
            base_size as int,
            delta,
            body,
            0,
        ) == DeltaScan::Made(result_size)
}

/// Two readings of one size agree.
proof fn lemma_size_unique(bytes: Seq<u8>, at: int, a: u64, an: int, b: u64, bn: int)
    requires
        reads_size(bytes, at, a, an),
        reads_size(bytes, at, b, bn),
    ensures
        a == b,
        an == bn,
{
    if an < bn {
        assert(bytes[at + (an - at) - 1] < 128);
        assert(bytes[an - 1] >= 128);
    } else if bn < an {
        assert(bytes[at + (bn - at) - 1] < 128);
        assert(bytes[bn - 1] >= 128);
    }
}

/// Checks that a delta turns a base of the expected size into the expected size.
pub fn validate_delta_instructions(
    instructions: &[u8],
    expected_base_size: u64,
    expected_result_size: u64,
) -> (result: Result<(), PackEntrySourceError>)
    ensures
        result is Ok <==> delta_valid(instructions@, expected_base_size, expected_result_size),
        result is Err && (exists|body: int|
            delta_header(instructions@, expected_base_size, expected_result_size, body))
            ==> result->Err_0 == PackEntrySourceError::InvalidDeltaInstructions || result->Err_0
            == PackEntrySourceError::ByteOverflow,
        result is Err && !(exists|body: int|
            delta_header(instructions@, expected_base_size, expected_result_size, body))
            ==> result->Err_0 == PackEntrySourceError::InvalidDeltaHeader,
        forall|body: int|
            #[trigger] delta_header(
                instructions@,
                expected_base_size,
                expected_result_size,
                body,
            ) ==> (result == Err::<(), PackEntrySourceError>(PackEntrySourceError::ByteOverflow)
                <==> delta_scan(expected_base_size as int, instructions@, body, 0) is Overflow),
{
    let (base_size, middle) = match decode_delta_size(instructions, 0) {
        Ok(read) => read,
        Err(error) => {
            proof {
                assert forall|body: int| !delta_header(
                    instructions@,
                    expected_base_size,
                    expected_result_size,
                    body,
                ) by {
                    if delta_header(
                        instructions@,
                        expected_base_size,
                        expected_result_size,
                        body,
                    ) {
                        let m = choose|m: int|
                            #[trigger] reads_size(instructions@, 0, expected_base_size, m)
                                && reads_size(instructions@, m, expected_result_size, body);
                        assert(size_ends(instructions@, 0, (m - 0) as nat));
                    }
                }
            }
            return Err(error);
        },
    };
    let (result_size, body) = match decode_delta_size(instructions, middle) {
        Ok(read) => read,
        Err(error) => {
            proof {
                assert forall|other: int| !delta_header(
                    instructions@,
                    expected_base_size,
                    expected_result_size,
                    other,
                ) by {
                    if delta_header(
                        instructions@,
                        expected_base_size,
                        expected_result_size,
                        other,
                    ) {
                        let m = choose|m: int|
                            #[trigger] reads_size(instructions@, 0, expected_base_size, m)
                                && reads_size(instructions@, m, expected_result_size, other);
                        lemma_size_unique(
                            instructions@,
                            0,
                            expected_base_size,
                            m,
                            base_size,
                            middle as int,
                        );
                        assert(size_ends(instructions@, m, (other - m) as nat));
                    }
                }
            }
            return Err(error);
        },
    };
    proof {
        assert forall|other: int| delta_header(
            instructions@,
            expected_base_size,
            expected_result_size,
            other,
        ) implies other == body && base_size == expected_base_size && result_size
            == expected_result_size by {
            let m = choose|m: int|
                #[trigger] reads_size(instructions@, 0, expected_base_size, m) && reads_size(
                    instructions@,
                    m,
                    expected_result_size,
                    other,
                );
            lemma_size_unique(instructions@, 0, expected_base_size, m, base_size, middle as int);
            lemma_size_unique(
                instructions@,
                m,
                expected_result_size,
                other,
                result_size,
                body as int,
            );
        }
        assert(delta_header(instructions@, base_size, result_size, body as int)) by {
            assert(reads_size(instructions@, 0, base_size, middle as int));
        }
    }
    if base_size != expected_base_size || result_size != expected_result_size {
        return Err(PackEntrySourceError::InvalidDeltaHeader);
    }
    match scan_instructions(base_size, instructions, body) {
        DeltaScan::Made(made) => {
            if made != result_size {
                return Err(PackEntrySourceError::InvalidDeltaInstructions);
            }
            Ok(())
        },
        DeltaScan::Malformed => Err(PackEntrySourceError::InvalidDeltaInstructions),
        DeltaScan::Overflow => Err(PackEntrySourceError::ByteOverflow),
    }
}

/// A valid delta applies to every base of the recorded size and makes the recorded size.
pub proof fn law_valid_delta_applies(delta: Seq<u8>, base: Seq<u8>, result_size: u64)
    requires
        base.len() <= u64::MAX,
        delta_valid(delta, base.len() as u64, result_size),
    ensures
        exists|body: int|
            #[trigger] delta_header(delta, base.len() as u64, result_size, body) && delta_apply(
                base,
                delta,
                body,
            ) is Some && delta_apply(base, delta, body)->0.len() == result_size,
{
    let body = choose|body: int|
        #[trigger] delta_header(delta, base.len() as u64, result_size, body) && delta_scan(
            base.len() as int,
            delta,
            body,
            0,
        ) == DeltaScan::Made(result_size);
    crate::delta_code::law_scan_measures_apply(base, delta, body, 0);
}

/// The ten bytes after which a header cannot go on: each has the high bit set.
pub open spec fn header_runs_over(bytes: Seq<u8>) -> bool {
    &&& 11 <= bytes.len() <= 16
    &&& forall|i: int| 0 <= i < 10 ==> #[trigger] bytes[i] >= 128
}

/// Decodes a source entry header that must be canonical and fill `bytes`.
pub fn decode_source_header(bytes: &[u8]) -> (result: Result<(u8, u64, usize), PackEntrySourceError>)
    ensures
        match result {
            Ok((code, size, consumed)) => code < 8 && bytes@ == entry_header(code, size as nat)
                && consumed == bytes@.len(),
            Err(error) => {
                &&& error == if header_runs_over(bytes@) {
                    PackEntrySourceError::ByteOverflow
                } else {
                    PackEntrySourceError::InvalidHeader
                }
                &&& forall|code: u8, size: nat|
                    code < 8 && size < two64() ==> bytes@ != #[trigger] entry_header(code, size)
            },
        },
{
    if bytes.len() == 0 || bytes.len() > MAX_REUSED_ENTRY_HEADER_BYTES {
        proof {
            assert forall|code: u8, size: nat| code < 8 && size < two64() implies bytes@
                != #[trigger] entry_header(code, size) by {
                crate::varint::lemma_entry_header_len(code, size);
            }
        }
        return Err(PackEntrySourceError::InvalidHeader);
    }
    let read = read_entry_header_at(bytes, 0);
    match read {
        Some(header) => {
            if header.next == bytes.len() {
                assert(bytes@.subrange(0, bytes@.len() as int) =~= bytes@);
                return Ok((header.code, header.size, header.next));
            }
            proof {
                assert forall|code: u8, size: nat| code < 8 && size < two64() implies bytes@
                    != #[trigger] entry_header(code, size) by {
                    if bytes@ == entry_header(code, size) {
                        assert(bytes@.subrange(0, bytes@.len() as int) =~= bytes@);
                        crate::varint::law_entry_header_spells_one_entry(
                            bytes@,
                            0,
                            code,
                            size,
                            header.code,
                            header.size as nat,
                        );
                    }
                }
            }
        },
        None => {
            proof {
                assert forall|code: u8, size: nat| code < 8 && size < two64() implies bytes@
                    != #[trigger] entry_header(code, size) by {
                    if bytes@ == entry_header(code, size) {
                        assert(bytes@.subrange(0, bytes@.len() as int) =~= bytes@);
                        assert(holds_at(bytes@, 0, entry_header(code, size)));
                    }
                }
            }
        },
    }
    let mut run: usize = 0;
    while run < bytes.len() && run < 10 && bytes[run] >= 128
        invariant
            run <= bytes@.len(),
            run <= 10,
            forall|i: int| 0 <= i < run ==> #[trigger] bytes@[i] >= 128,
        decreases 10 - run,
    {
        run = run + 1;
    }
    if run == 10 && bytes.len() >= 11 {
        return Err(PackEntrySourceError::ByteOverflow);
    }
    Err(PackEntrySourceError::InvalidHeader)
}

/// A decompressor that has taken some front of a stream fails on what follows, ends with bytes
/// left over or with another size than declared, or makes no progress.
pub open spec fn inflation_breaks(stream: Seq<u8>, declared_size: u64) -> bool {
    exists|decoder: flate2::Decompress| #[trigger]
        inflate_input(decoder).is_prefix_of(stream) && inflate_output(decoder).len()
            <= declared_size && inflate_call_breaks(decoder, stream, declared_size)
}

/// The next call of this decompressor, on all that remains, breaks the inflation off.
pub open spec fn inflate_call_breaks(
    decoder: flate2::Decompress,
    stream: Seq<u8>,
    declared_size: u64,
) -> bool {
    let at = inflate_input(decoder).len();
    match inflate_outcome(decoder, stream.skip(at as int), INFLATE_CHUNK_BYTES as nat, true) {
        None => true,
        Some((ZlibStatus::Ended, consumed, produced)) => at + consumed != stream.len()
            || inflate_output(decoder).len() + produced != declared_size,
        Some((_, consumed, produced)) => consumed == 0 && produced == 0,
    }
}

/// A decompressor that has taken some front of a stream produces more than the declared size.
pub open spec fn inflation_exceeds(stream: Seq<u8>, declared_size: u64) -> bool {
    exists|decoder: flate2::Decompress| #[trigger]
        inflate_input(decoder).is_prefix_of(stream) && inflate_output(decoder).len()
            <= declared_size && (inflate_outcome(
            decoder,
            stream.skip(inflate_input(decoder).len() as int),
            INFLATE_CHUNK_BYTES as nat,
            true,
        ) matches Some((_, _, produced)) && inflate_output(decoder).len() + produced
            > declared_size)
}

/// Inflates `compressed` as one zlib stream of `declared_size` bytes, keeping the output on demand.
///
/// Whether the bytes are such a stream is for the decompressor to say; success means that they are.
pub fn validate_zlib_stream(
    compressed: &[u8],
    declared_size: u64,
    retain_output: bool,
) -> (result: Result<Vec<u8>, PackEntrySourceError>)
    ensures
        retain_output && declared_size > MAX_REUSED_DELTA_INSTRUCTION_BYTES ==> result == Err::<
            Vec<u8>,
            PackEntrySourceError,
        >(PackEntrySourceError::DeltaInstructionsTooLarge),
        match result {
            Ok(output) => {
                &&& zlib_decoded(compressed@) is Some
                &&& zlib_decoded(compressed@)->0.len() == declared_size
                &&& output@ == if retain_output {
                    zlib_decoded(compressed@)->0
                } else {
                    Seq::empty()
                }
            },
            Err(error) => {
                ||| error == PackEntrySourceError::InvalidCompressedStream && inflation_breaks(
                    compressed@,
                    declared_size,
                )
                ||| error == PackEntrySourceError::SizeMismatch && inflation_exceeds(
                    compressed@,
                    declared_size,
                )
                ||| error == PackEntrySourceError::DeltaInstructionsTooLarge && retain_output
                    && declared_size > MAX_REUSED_DELTA_INSTRUCTION_BYTES
            },
        },
{
    if retain_output && declared_size > MAX_REUSED_DELTA_INSTRUCTION_BYTES as u64 {
        return Err(PackEntrySourceError::DeltaInstructionsTooLarge);
    }
    let mut decoder = decompress_new();
    let mut output: Vec<u8> = zeroed(INFLATE_CHUNK_BYTES);
    let mut retained: Vec<u8> = Vec::new();
    let mut input_offset: usize = 0;
    let mut total_out: u64 = 0;
    assert(compressed@.take(0) =~= Seq::<u8>::empty());
    loop
        invariant
            output@.len() == INFLATE_CHUNK_BYTES,
            !(retain_output && declared_size > MAX_REUSED_DELTA_INSTRUCTION_BYTES),
            input_offset <= compressed@.len(),
            inflate_input(decoder) == compressed@.take(input_offset as int),
            inflate_output(decoder).len() == total_out,
            total_out <= declared_size,
            retained@ == if retain_output {
                inflate_output(decoder)
            } else {
                Seq::empty()
            },
        decreases (compressed@.len() - input_offset) + (declared_size - total_out),
    {
        let rest: Vec<u8> = copy_range(compressed, input_offset, compressed.len());
        let ghost before_input = inflate_input(decoder);
        proof {
            assert(rest@ =~= compressed@.skip(input_offset as int));
            assert(before_input.is_prefix_of(compressed@));
        }
        let status = match decompress_step(&mut decoder, rest.as_slice(), &mut output, true) {
            Ok(status) => status,
            Err(_) => {
                return Err(PackEntrySourceError::InvalidCompressedStream);
            },
        };
        let all_in: u64 = decompress_total_in(&decoder);
        let all_out: u64 = decompress_total_out(&decoder);
        let consumed: u64 = all_in - input_offset as u64;
        let produced: u64 = all_out - total_out;
        if all_out > declared_size {
            return Err(PackEntrySourceError::SizeMismatch);
        }
        if retain_output {
            let part: Vec<u8> = copy_range(output.as_slice(), 0, produced as usize);
            append_bytes(&mut retained, part.as_slice());
            proof {
                assert(part@ =~= output@.take(produced as int));
            }
        }
        proof {
            assert(before_input + rest@.take(consumed as int) =~= compressed@.take(all_in as int));
        }
        if status == ZlibStatus::Ended {
            if all_in != compressed.len() as u64 || all_out != declared_size {
                return Err(PackEntrySourceError::InvalidCompressedStream);
            }
            assert(compressed@.take(all_in as int) =~= compressed@);
            return Ok(retained);
        }
        if consumed == 0 && produced == 0 {
            return Err(PackEntrySourceError::InvalidCompressedStream);
        }
        input_offset = all_in as usize;
        total_out = all_out;
    }
}

/// Evidence that source metadata, entry header, byte bounds and compressed bytes agreed.
#[derive(Debug)]
pub struct ValidatedPackEntry {
    source_pack_checksum: ObjectId,
    source_offset: u64,
    kind: StoredPackEntryKind,
    declared_size: u64,
    result_size: u64,
    result_oid: ObjectId,
    compressed: Vec<u8>,
}

/// The plain facts that a source entry is checked against.
pub struct EntrySource {
    /// Absolute source offset.
    pub source_offset: u64,
    /// Length of the OFS distance or base ID after the entry header.
    pub delta_base_header_bytes: usize,
    /// Recorded representation.
    pub kind: StoredPackEntryKind,
    /// Size declared in the entry header.
    pub declared_size: u64,
    /// Decoded result size.
    pub result_size: u64,
    /// Identity of the result.
    pub result_oid: ObjectId,
}

/// The pack's checksum or size cannot belong to a pack of `algo`.
pub open spec fn pack_invalid(
    checksum: Seq<u8>,
    object_count: u64,
    size_bytes: u64,
    algo: HashAlgo,
) -> bool {
    ||| checksum.len() != algo.spec_len()
    ||| forall|i: int| 0 <= i < checksum.len() ==> #[trigger] checksum[i] == 0
    ||| object_count == 0
    ||| size_bytes < 12 + algo.spec_len()
}

/// The first thing wrong with a source entry before its bytes are inflated.
pub open spec fn source_fault_before(
    checksum: Seq<u8>,
    object_count: u64,
    size_bytes: u64,
    algo: HashAlgo,
    header: Seq<u8>,
    source: EntrySource,
    compressed: Seq<u8>,
) -> Option<PackEntrySourceError> {
    if pack_invalid(checksum, object_count, size_bytes, algo) {
        Some(PackEntrySourceError::InvalidPack)
    } else if compressed.len() == 0 {
        Some(PackEntrySourceError::EmptyCompressedStream)
    } else if source.result_oid.spec_algo() != algo || source.result_oid.spec_is_zero() {
        Some(PackEntrySourceError::TypeMismatch)
    } else if forall|code: u8, size: nat|
        code < 8 && size < two64() ==> header != #[trigger] entry_header(code, size) {
        if header_runs_over(header) {
            Some(PackEntrySourceError::ByteOverflow)
        } else {
            Some(PackEntrySourceError::InvalidHeader)
        }
    } else if forall|size: nat|
        size < two64() ==> header != #[trigger] entry_header(source.kind.code(), size) {
        Some(PackEntrySourceError::TypeMismatch)
    } else if header != entry_header(source.kind.code(), source.declared_size as nat) {
        Some(PackEntrySourceError::SizeMismatch)
    } else if source.kind is Direct && source.declared_size != source.result_size {
        Some(PackEntrySourceError::SizeMismatch)
    } else {
        None
    }
}

/// The first thing wrong with a source entry once its bytes and instructions are known good.
pub open spec fn source_fault_after(
    size_bytes: u64,
    algo: HashAlgo,
    header: Seq<u8>,
    source: EntrySource,
    compressed: Seq<u8>,
) -> Option<PackEntrySourceError> {
    let span = header.len() + source.delta_base_header_bytes + compressed.len();
    if span > usize::MAX || source.source_offset + span > u64::MAX {
        Some(PackEntrySourceError::ByteOverflow)
    } else if source.source_offset < 12 || source.source_offset + span > size_bytes
        - algo.spec_len() {
        Some(PackEntrySourceError::OutOfBounds)
    } else if source.kind.base_invalid(algo) {
        Some(PackEntrySourceError::TypeMismatch)
    } else if source.kind.base_header_invalid(source.delta_base_header_bytes as int) {
        Some(PackEntrySourceError::InvalidHeader)
    } else {
        None
    }
}

/// The failure is about delta instructions.
pub open spec fn delta_error(error: PackEntrySourceError) -> bool {
    ||| error == PackEntrySourceError::InvalidDeltaHeader
    ||| error == PackEntrySourceError::InvalidDeltaInstructions
    ||| error == PackEntrySourceError::ByteOverflow
}

/// Why a source entry is refused: a fault before inflation, a stream that does not inflate to the
/// declared size, too many instructions, invalid instructions, or a fault after inflation.
pub open spec fn source_refused(
    checksum: Seq<u8>,
    object_count: u64,
    size_bytes: u64,
    algo: HashAlgo,
    header: Seq<u8>,
    source: EntrySource,
    compressed: Seq<u8>,
    error: PackEntrySourceError,
) -> bool {
    match source_fault_before(checksum, object_count, size_bytes, algo, header, source, compressed) {
        Some(fault) => error == fault,
        None => {
            ||| error == PackEntrySourceError::InvalidCompressedStream && inflation_breaks(
                compressed,
                source.declared_size,
            )
            ||| error == PackEntrySourceError::SizeMismatch && inflation_exceeds(
                compressed,
                source.declared_size,
            )
            ||| error == PackEntrySourceError::DeltaInstructionsTooLarge && source.kind.is_delta()
                && source.declared_size > MAX_REUSED_DELTA_INSTRUCTION_BYTES
            ||| delta_error(error) && source.kind.is_delta() && zlib_decoded(compressed) is Some
                && !delta_valid(
                zlib_decoded(compressed)->0,
                source.kind.delta_base_size(),
                source.result_size,
            )
            ||| source_fault_after(size_bytes, algo, header, source, compressed) == Some(error)
        },
    }
}

impl ValidatedPackEntry {
    /// The checksum of the source pack.
    pub closed spec fn spec_checksum(self) -> ObjectId {
        self.source_pack_checksum
    }

    /// The absolute source offset.
    pub closed spec fn spec_source_offset(self) -> u64 {
        self.source_offset
    }

    /// The recorded representation.
    pub closed spec fn spec_kind(self) -> StoredPackEntryKind {
        self.kind
    }

    /// The size in the entry header.
    pub closed spec fn spec_declared_size(self) -> u64 {
        self.declared_size
    }

    /// The decoded result size.
    pub closed spec fn spec_result_size(self) -> u64 {
        self.result_size
    }

    /// The identity of the result.
    pub closed spec fn spec_result_oid(self) -> ObjectId {
        self.result_oid
    }

    /// The retained zlib stream.
    pub closed spec fn spec_compressed(self) -> Seq<u8> {
        self.compressed@
    }

    /// The entry holds exactly these facts.
    pub open spec fn binds(
        self,
        checksum: Seq<u8>,
        source: EntrySource,
        compressed: Seq<u8>,
    ) -> bool {
        &&& self.spec_checksum()@ == checksum
        &&& self.spec_source_offset() == source.source_offset
        &&& self.spec_kind() == source.kind
        &&& self.spec_declared_size() == source.declared_size
        &&& self.spec_result_size() == source.result_size
        &&& self.spec_result_oid() == source.result_oid
        &&& self.spec_compressed() == compressed
    }

    /// Validate and bind retained zlib bytes to immutable pack and entry metadata.
    ///
    /// `source_header` starts at the source offset and excludes delta-base bytes; `compressed` is
    /// exactly one zlib stream. The declared size counts object bytes of direct entries and inflated
    /// instruction bytes of deltas.
    pub fn from_prevalidated_pack(
        pack: &PackMetadata,
        hash_algo: HashAlgo,
        source_header: &[u8],
        source: EntrySource,
        compressed: Vec<u8>,
    ) -> (result: Result<Self, PackEntrySourceError>)
        ensures
            source_fault_before(
                pack.pack_checksum@,
                pack.object_count,
                pack.size_bytes,
                hash_algo,
                source_header@,
                source,
                compressed@,
            ) matches Some(error) ==> result == Err::<Self, PackEntrySourceError>(error),
            match result {
                Ok(entry) => {
                    &&& entry.binds(pack.pack_checksum@, source, compressed@)
                    &&& source_header@ == entry_header(
                        source.kind.code(),
                        source.declared_size as nat,
                    )
                    &&& source_fault_after(
                        pack.size_bytes,
                        hash_algo,
                        source_header@,
                        source,
                        compressed@,
                    ) is None
                    &&& zlib_decoded(compressed@) is Some
                    &&& zlib_decoded(compressed@)->0.len() == source.declared_size
                    &&& source.kind.is_delta() ==> delta_valid(
                        zlib_decoded(compressed@)->0,
                        source.kind.delta_base_size(),
                        source.result_size,
                    )
                },
                Err(error) => source_refused(
                    pack.pack_checksum@,
                    pack.object_count,
                    pack.size_bytes,
                    hash_algo,
                    source_header@,
                    source,
                    compressed@,
                    error,
                ),
            },
    {
        if let Some(error) = check_before(
            pack,
            hash_algo,
            source_header,
            &source,
            compressed.as_slice(),
        ) {
            return Err(error);
        }
        let is_delta = match source.kind {
            StoredPackEntryKind::Direct(_) => false,
            _ => true,
        };
        let inflated = validate_zlib_stream(compressed.as_slice(), source.declared_size, is_delta);
        Self::from_inflated(pack, hash_algo, source_header, source, compressed, inflated)
    }

    /// Bind a source entry whose stream was inflated with the outcome `inflated`.
    ///
    /// Of a delta the outcome holds the instructions, which are checked here.
    pub fn from_inflated(
        pack: &PackMetadata,
        hash_algo: HashAlgo,
        source_header: &[u8],
        source: EntrySource,
        compressed: Vec<u8>,
        inflated: Result<Vec<u8>, PackEntrySourceError>,
    ) -> (result: Result<Self, PackEntrySourceError>)
        ensures
            result is Ok <==> {
                &&& source_fault_before(
                    pack.pack_checksum@,
                    pack.object_count,
                    pack.size_bytes,
                    hash_algo,
                    source_header@,
                    source,
                    compressed@,
                ) is None
                &&& inflated is Ok
                &&& source.kind.is_delta() ==> delta_valid(
                    inflated->Ok_0@,
                    source.kind.delta_base_size(),
                    source.result_size,
                )
                &&& source_fault_after(
                    pack.size_bytes,
                    hash_algo,
                    source_header@,
                    source,
                    compressed@,
                ) is None
            },
            result is Ok ==> result->Ok_0.binds(pack.pack_checksum@, source, compressed@)
                && source_header@ == entry_header(source.kind.code(), source.declared_size as nat),
            source_fault_before(
                pack.pack_checksum@,
                pack.object_count,
                pack.size_bytes,
                hash_algo,
                source_header@,
                source,
                compressed@,
            ) matches Some(error) ==> result == Err::<Self, PackEntrySourceError>(error),
            source_fault_before(
                pack.pack_checksum@,
                pack.object_count,
                pack.size_bytes,
                hash_algo,
                source_header@,
                source,
                compressed@,
            ) is None && inflated is Err ==> result == Err::<Self, PackEntrySourceError>(
                inflated->Err_0,
            ),
            source_fault_before(
                pack.pack_checksum@,
                pack.object_count,
                pack.size_bytes,
                hash_algo,
                source_header@,
                source,
                compressed@,
            ) is None && inflated is Ok && (source.kind.is_delta() ==> delta_valid(
                inflated->Ok_0@,
                source.kind.delta_base_size(),
                source.result_size,
            )) ==> match source_fault_after(
                pack.size_bytes,
                hash_algo,
                source_header@,
                source,
                compressed@,
            ) {
                Some(error) => result == Err::<Self, PackEntrySourceError>(error),
                None => result is Ok,
            },
            source_fault_before(
                pack.pack_checksum@,
                pack.object_count,
                pack.size_bytes,
                hash_algo,
                source_header@,
                source,
                compressed@,
            ) is None && inflated is Ok && source.kind.is_delta() && !delta_valid(
                inflated->Ok_0@,
                source.kind.delta_base_size(),
                source.result_size,
            ) ==> result is Err && delta_error(result->Err_0),
    {
        if let Some(error) = check_before(
            pack,
            hash_algo,
            source_header,
            &source,
            compressed.as_slice(),
        ) {
            return Err(error);
        }
        let plain = match inflated {
            Ok(plain) => plain,
            Err(error) => {
                return Err(error);
            },
        };
        match source.kind {
            StoredPackEntryKind::Direct(_) => {},
            StoredPackEntryKind::RefDelta { base_size, .. } => {
                if let Err(error) = validate_delta_instructions(
                    plain.as_slice(),
                    base_size,
                    source.result_size,
                ) {
                    return Err(error);
                }
            },
            StoredPackEntryKind::OfsDelta { base_size, .. } => {
                if let Err(error) = validate_delta_instructions(
                    plain.as_slice(),
                    base_size,
                    source.result_size,
                ) {
                    return Err(error);
                }
            },
        }
        if let Some(error) = check_after(
            pack,
            hash_algo,
            source_header,
            &source,
            compressed.as_slice(),
        ) {
            return Err(error);
        }
        let checksum = match ObjectId::from_bytes(pack.pack_checksum.as_slice()) {
            Some(checksum) => checksum,
            None => {
                return Err(PackEntrySourceError::InvalidPack);
            },
        };
        Ok(
            ValidatedPackEntry {
                source_pack_checksum: checksum,
                source_offset: source.source_offset,
                kind: source.kind,
                declared_size: source.declared_size,
                result_size: source.result_size,
                result_oid: source.result_oid,
                compressed,
            },
        )
    }

    /// Checksum of the immutable source pack.
    pub fn source_pack_checksum(&self) -> (checksum: Vec<u8>)
        ensures
            checksum@ == self.spec_checksum()@,
    {
        self.source_pack_checksum.to_bytes()
    }

    /// Absolute source-pack entry offset.
    pub fn source_offset(&self) -> (offset: u64)
        ensures
            offset == self.spec_source_offset(),
    {
        self.source_offset
    }

    /// Return the validated representation and resolved delta dependency.
    pub fn kind(&self) -> (kind: StoredPackEntryKind)
        ensures
            kind == self.spec_kind(),
    {
        self.kind
    }

    /// The entry stands for this object.
    pub open spec fn stands_for(self, oid: ObjectId, object: StoredObject) -> bool {
        &&& self.spec_result_oid() == oid
        &&& object.data@.len() == self.spec_result_size()
        &&& match self.spec_kind() {
            StoredPackEntryKind::Direct(kind) => kind == object.kind,
            StoredPackEntryKind::RefDelta { result_kind, .. } => result_kind == object.kind,
            StoredPackEntryKind::OfsDelta { result_kind, .. } => result_kind == object.kind,
        }
    }

    /// Return whether the entry stands for this object.
    pub fn matches_result(&self, oid: ObjectId, object: &StoredObject) -> (matches: bool)
        ensures
            matches == self.stands_for(oid, *object),
    {
        let kind = match self.kind {
            StoredPackEntryKind::Direct(kind) => kind,
            StoredPackEntryKind::RefDelta { result_kind, .. } => result_kind,
            StoredPackEntryKind::OfsDelta { result_kind, .. } => result_kind,
        };
        self.result_oid == oid && object.data.len() as u64 == self.result_size && kind
            == object.kind
    }
}

/// Whether every byte is zero.
fn all_zero(bytes: &[u8]) -> (zero: bool)
    ensures
        zero == (forall|i: int| 0 <= i < bytes@.len() ==> #[trigger] bytes@[i] == 0),
{
    let mut at: usize = 0;
    while at < bytes.len()
        invariant
            at <= bytes@.len(),
            forall|i: int| 0 <= i < at ==> #[trigger] bytes@[i] == 0,
        decreases bytes.len() - at,
    {
        if bytes[at] != 0 {
            return false;
        }
        at = at + 1;
    }
    true
}

/// Finds the first fault that needs no inflating.
fn check_before(
    pack: &PackMetadata,
    hash_algo: HashAlgo,
    source_header: &[u8],
    source: &EntrySource,
    compressed: &[u8],
) -> (fault: Option<PackEntrySourceError>)
    ensures
        fault == source_fault_before(
            pack.pack_checksum@,
            pack.object_count,
            pack.size_bytes,
            hash_algo,
            source_header@,
            *source,
            compressed@,
        ),
{
    let trailer: usize = hash_algo.len();
    if pack.pack_checksum.len() != trailer || all_zero(pack.pack_checksum.as_slice())
        || pack.object_count == 0 || pack.size_bytes < 12 + trailer as u64 {
        return Some(PackEntrySourceError::InvalidPack);
    }
    if compressed.len() == 0 {
        return Some(PackEntrySourceError::EmptyCompressedStream);
    }
    if source.result_oid.algo() != hash_algo || source.result_oid.is_zero() {
        return Some(PackEntrySourceError::TypeMismatch);
    }
    let (code, size, _consumed) = match decode_source_header(source_header) {
        Ok(header) => header,
        Err(error) => {
            return Some(error);
        },
    };
    let expected: u8 = source.kind.type_code();
    proof {
        assert(source_header@ == entry_header(code, size as nat));
        assert forall|other: u8, other_size: nat| other < 8 && source_header@
            == #[trigger] entry_header(other, other_size) implies other == code && other_size
            == size by {
            let all = source_header@;
            assert(all.subrange(0, all.len() as int) =~= all);
            crate::varint::law_entry_header_spells_one_entry(
                all,
                0,
                other,
                other_size,
                code,
                size as nat,
            );
        }
    }
    if code != expected {
        return Some(PackEntrySourceError::TypeMismatch);
    }
    if size != source.declared_size {
        return Some(PackEntrySourceError::SizeMismatch);
    }
    if let StoredPackEntryKind::Direct(_) = source.kind {
        if source.declared_size != source.result_size {
            return Some(PackEntrySourceError::SizeMismatch);
        }
    }
    None
}

/// Finds the first fault of the entry's span, bounds and base.
fn check_after(
    pack: &PackMetadata,
    hash_algo: HashAlgo,
    source_header: &[u8],
    source: &EntrySource,
    compressed: &[u8],
) -> (fault: Option<PackEntrySourceError>)
    requires
        pack.size_bytes >= 12 + hash_algo.spec_len(),
    ensures
        fault == source_fault_after(
            pack.size_bytes,
            hash_algo,
            source_header@,
            *source,
            compressed@,
        ),
{
    let span: usize = match source_header.len().checked_add(source.delta_base_header_bytes) {
        Some(headers) => match headers.checked_add(compressed.len()) {
            Some(span) => span,
            None => {
                return Some(PackEntrySourceError::ByteOverflow);
            },
        },
        None => {
            return Some(PackEntrySourceError::ByteOverflow);
        },
    };
    let entry_end: u64 = match source.source_offset.checked_add(span as u64) {
        Some(end) => end,
        None => {
            return Some(PackEntrySourceError::ByteOverflow);
        },
    };
    let body_end: u64 = pack.size_bytes - hash_algo.len() as u64;
    if source.source_offset < 12 || entry_end > body_end {
        return Some(PackEntrySourceError::OutOfBounds);
    }
    match source.kind {
        StoredPackEntryKind::Direct(_) => {
            if source.delta_base_header_bytes != 0 {
                return Some(PackEntrySourceError::InvalidHeader);
            }
        },
        StoredPackEntryKind::RefDelta { base, .. } => {
            if base.algo() != hash_algo || base.is_zero() {
                return Some(PackEntrySourceError::TypeMismatch);
            }
            if source.delta_base_header_bytes != base.algo().len() {
                return Some(PackEntrySourceError::InvalidHeader);
            }
        },
        StoredPackEntryKind::OfsDelta { base, .. } => {
            if base.algo() != hash_algo || base.is_zero() {
                return Some(PackEntrySourceError::TypeMismatch);
            }
            if source.delta_base_header_bytes < 1 || source.delta_base_header_bytes > 10 {
                return Some(PackEntrySourceError::InvalidHeader);
            }
        },
    }
    None
}

/// Proven bases available to delta entries of one outgoing pack.
pub struct PackDependencySet {
    outgoing: OidMap,
}

impl PackDependencySet {
    /// The output offset of every recorded object.
    pub closed spec fn offsets(self) -> Map<ObjectId, u64> {
        self.outgoing@
    }

    /// Create an empty dependency set.
    pub fn new() -> (set: Self)
        ensures
            set.offsets() == Map::<ObjectId, u64>::empty(),
    {
        PackDependencySet { outgoing: OidMap::new() }
    }

    /// Record one object after its entry header has been emitted; the first offset stays.
    pub fn record_outgoing(&mut self, oid: ObjectId, output_offset: u64)
        ensures
            final(self).offsets() == if old(self).offsets().dom().contains(oid) {
                old(self).offsets()
            } else {
                old(self).offsets().insert(oid, output_offset)
            },
    {
        let _stored = self.outgoing.insert_new(oid, output_offset);
    }

    /// Return the output offset of a recorded object.
    pub fn outgoing_offset_for(&self, oid: ObjectId) -> (offset: Option<u64>)
        ensures
            offset is Some <==> self.offsets().dom().contains(oid),
            offset is Some ==> offset->0 == self.offsets()[oid],
    {
        self.outgoing.get(oid)
    }
}

/// Delta representation negotiated for an outgoing pack.
#[derive(Clone, Copy, Debug, PartialEq, Eq, Structural)]
pub struct PackReuseCapabilities {
    /// Receiver accepts OFS-delta entries.
    pub ofs_delta: bool,
}

impl Default for PackReuseCapabilities {
    fn default() -> (capabilities: Self)
        ensures
            !capabilities.ofs_delta,
    {
        PackReuseCapabilities { ofs_delta: false }
    }
}

/// Reason a retained representation routes to recompression.
#[derive(Clone, Copy, Debug, PartialEq, Eq, Structural)]
pub enum PackRecompressReason {
    /// Source metadata or retained bytes failed validation.
    InvalidSource(PackEntrySourceError),
    /// Delta base is not earlier in the outgoing pack.
    UnprovenBase,
    /// OFS-delta was not negotiated.
    OfsDeltaUnsupported,
    /// Stored OFS-delta base is not earlier than the entry's output offset.
    InvalidOutputDistance,
}

/// Validated retained direct entry payload.
#[derive(Debug)]
pub struct ReusedDirectEntry {
    /// Object kind.
    pub kind: ObjectKind,
    /// Object size.
    pub declared_size: u64,
    /// Retained zlib stream.
    pub compressed: Vec<u8>,
}

/// Validated retained REF-delta instructions and proven base.
#[derive(Debug)]
pub struct ReusedRefDeltaEntry {
    /// Kind of the result.
    pub result_kind: ObjectKind,
    /// Size of the result.
    pub result_size: u64,
    /// Size of the instructions.
    pub declared_size: u64,
    /// Base identity.
    pub base: ObjectId,
    /// Retained zlib stream.
    pub compressed: Vec<u8>,
}

/// Validated retained OFS-delta instructions and the base's output offset.
#[derive(Debug)]
pub struct ReusedOfsDeltaEntry {
    /// Kind of the result.
    pub result_kind: ObjectKind,
    /// Size of the result.
    pub result_size: u64,
    /// Size of the instructions.
    pub declared_size: u64,
    /// Output offset of the base.
    pub base_output_offset: u64,
    /// Retained zlib stream.
    pub compressed: Vec<u8>,
}

/// Complete deterministic action for one outgoing PACK entry.
#[derive(Debug)]
pub enum PackEntryPlan {
    /// Emit a fresh direct header and retained bytes.
    Direct(ReusedDirectEntry),
    /// Emit a fresh REF-delta header, base ID and retained bytes.
    RefDelta(ReusedRefDeltaEntry),
    /// Emit a fresh OFS-delta header, new distance and retained bytes.
    OfsDelta(ReusedOfsDeltaEntry),
    /// Compress the decoded object.
    RecompressFallback(PackRecompressReason),
}

impl PackEntryPlan {
    /// The plan reuses the entry's direct representation.
    pub open spec fn reuses_direct(self, source: ValidatedPackEntry, kind: ObjectKind) -> bool {
        self matches PackEntryPlan::Direct(entry) && entry.kind == kind && entry.declared_size
            == source.spec_declared_size() && entry.compressed@ == source.spec_compressed()
    }

    /// The plan reuses the entry as a REF-delta.
    pub open spec fn reuses_ref(
        self,
        source: ValidatedPackEntry,
        base: ObjectId,
        kind: ObjectKind,
    ) -> bool {
        self matches PackEntryPlan::RefDelta(entry) && entry.result_kind == kind
            && entry.result_size == source.spec_result_size() && entry.declared_size
            == source.spec_declared_size() && entry.base == base && entry.compressed@
            == source.spec_compressed()
    }

    /// The plan reuses the entry as an OFS-delta against the base at `base_offset`.
    pub open spec fn reuses_ofs(
        self,
        source: ValidatedPackEntry,
        base_offset: u64,
        kind: ObjectKind,
    ) -> bool {
        self matches PackEntryPlan::OfsDelta(entry) && entry.result_kind == kind
            && entry.result_size == source.spec_result_size() && entry.declared_size
            == source.spec_declared_size() && entry.base_output_offset == base_offset
            && entry.compressed@ == source.spec_compressed()
    }

    /// What the plan for a validated entry is: reuse where the base is proven, and otherwise
    /// recompression with the reason.
    pub open spec fn follows(
        self,
        source: ValidatedPackEntry,
        offsets: Map<ObjectId, u64>,
        capabilities: PackReuseCapabilities,
        output_offset: u64,
    ) -> bool {
        match source.spec_kind() {
            StoredPackEntryKind::Direct(kind) => self.reuses_direct(source, kind),
            StoredPackEntryKind::RefDelta { base, result_kind, .. } => if offsets.dom().contains(
                base,
            ) && offsets[base] < output_offset {
                self.reuses_ref(source, base, result_kind)
            } else {
                self == PackEntryPlan::RecompressFallback(PackRecompressReason::UnprovenBase)
            },
            StoredPackEntryKind::OfsDelta { base, result_kind, .. } => if !capabilities.ofs_delta {
                self == PackEntryPlan::RecompressFallback(PackRecompressReason::OfsDeltaUnsupported)
            } else if !offsets.dom().contains(base) {
                self == PackEntryPlan::RecompressFallback(PackRecompressReason::UnprovenBase)
            } else if offsets[base] >= output_offset {
                self == PackEntryPlan::RecompressFallback(
                    PackRecompressReason::InvalidOutputDistance,
                )
            } else {
                self.reuses_ofs(source, offsets[base], result_kind)
            },
        }
    }

    /// Convert source validation into reuse or a recompression fallback.
    pub fn from_source_validation(
        source: Result<ValidatedPackEntry, PackEntrySourceError>,
        dependencies: &PackDependencySet,
        capabilities: PackReuseCapabilities,
        output_offset: u64,
    ) -> (plan: Self)
        ensures
            match source {
                Ok(entry) => plan.follows(
                    entry,
                    dependencies.offsets(),
                    capabilities,
                    output_offset,
                ),
                Err(error) => plan == PackEntryPlan::RecompressFallback(
                    PackRecompressReason::InvalidSource(error),
                ),
            },
    {
        match source {
            Ok(entry) => Self::from_validated_entry(
                &entry,
                dependencies,
                capabilities,
                output_offset,
            ),
            Err(error) => PackEntryPlan::RecompressFallback(
                PackRecompressReason::InvalidSource(error),
            ),
        }
    }

    /// Build a reuse plan from source evidence and the current output dependencies.
    ///
    /// A receiver is never guessed to own a base, and a source OFS distance is never retained.
    pub fn from_validated_entry(
        source: &ValidatedPackEntry,
        dependencies: &PackDependencySet,
        capabilities: PackReuseCapabilities,
        output_offset: u64,
    ) -> (plan: Self)
        ensures
            plan.follows(*source, dependencies.offsets(), capabilities, output_offset),
    {
        match source.kind {
            StoredPackEntryKind::Direct(kind) => PackEntryPlan::Direct(
                ReusedDirectEntry {
                    kind,
                    declared_size: source.declared_size,
                    compressed: copy_all(&source.compressed),
                },
            ),
            StoredPackEntryKind::RefDelta { base, result_kind, .. } => {
                match dependencies.outgoing_offset_for(base) {
                    Some(offset) => {
                        if offset >= output_offset {
                            return PackEntryPlan::RecompressFallback(
                                PackRecompressReason::UnprovenBase,
                            );
                        }
                    },
                    None => {
                        return PackEntryPlan::RecompressFallback(
                            PackRecompressReason::UnprovenBase,
                        );
                    },
                }
                PackEntryPlan::RefDelta(
                    ReusedRefDeltaEntry {
                        result_kind,
                        result_size: source.result_size,
                        declared_size: source.declared_size,
                        base,
                        compressed: copy_all(&source.compressed),
                    },
                )
            },
            StoredPackEntryKind::OfsDelta { base, result_kind, .. } => {
                if !capabilities.ofs_delta {
                    return PackEntryPlan::RecompressFallback(
                        PackRecompressReason::OfsDeltaUnsupported,
                    );
                }
                let base_offset: u64 = match dependencies.outgoing_offset_for(base) {
                    Some(offset) => offset,
                    None => {
                        return PackEntryPlan::RecompressFallback(
                            PackRecompressReason::UnprovenBase,
                        );
                    },
                };
                if base_offset >= output_offset {
                    return PackEntryPlan::RecompressFallback(
                        PackRecompressReason::InvalidOutputDistance,
                    );
                }
                PackEntryPlan::OfsDelta(
                    ReusedOfsDeltaEntry {
                        result_kind,
                        result_size: source.result_size,
                        declared_size: source.declared_size,
                        base_output_offset: base_offset,
                        compressed: copy_all(&source.compressed),
                    },
                )
            },
        }
    }

    /// The object kind that the plan emits without recompression.
    pub open spec fn spec_reused_kind(self) -> Option<ObjectKind> {
        match self {
            PackEntryPlan::Direct(entry) => Some(entry.kind),
            PackEntryPlan::RefDelta(entry) => Some(entry.result_kind),
            PackEntryPlan::OfsDelta(entry) => Some(entry.result_kind),
            PackEntryPlan::RecompressFallback(_) => None,
        }
    }

    /// Final object kind, if this plan reuses compressed bytes.
    pub fn reused_kind(&self) -> (kind: Option<ObjectKind>)
        ensures
            kind == self.spec_reused_kind(),
    {
        match self {
            PackEntryPlan::Direct(entry) => Some(entry.kind),
            PackEntryPlan::RefDelta(entry) => Some(entry.result_kind),
            PackEntryPlan::OfsDelta(entry) => Some(entry.result_kind),
            PackEntryPlan::RecompressFallback(_) => None,
        }
    }
}

/// Copies a whole buffer.
fn copy_all(bytes: &Vec<u8>) -> (copy: Vec<u8>)
    ensures
        copy@ == bytes@,
{
    let copy: Vec<u8> = copy_range(bytes.as_slice(), 0, bytes.len());
    assert(copy@ =~= bytes@);
    copy
}

/// Appends an entry header; only the low three bits of the type code are used.
pub fn encode_header_u64(
    output: &mut Vec<u8>,
    type_code: u8,
    payload_len: u64,
) -> (result: Result<(), PackWriterError>)
    ensures
        result is Ok,
        final(output)@ == old(output)@ + entry_header(type_code % 8, payload_len as nat),
{
    push_entry_header(output, type_code % 8, payload_len);
    Ok(())
}

/// Appends an OFS-delta distance; zero is refused and appends nothing.
pub fn encode_ofs_delta_distance(
    output: &mut Vec<u8>,
    distance: u64,
) -> (result: Result<(), PackWriterError>)
    ensures
        result == if distance == 0 {
            Err::<(), PackWriterError>(PackWriterError::ByteOverflow)
        } else {
            Ok(())
        },
        final(output)@ == if distance == 0 {
            old(output)@
        } else {
            old(output)@ + ofs_distance(distance as nat)
        },
{
    if distance == 0 {
        return Err(PackWriterError::ByteOverflow);
    }
    push_ofs_distance(output, distance);
    Ok(())
}

/// A reused delta rests on a base written earlier to the same output: no base is presumed to be the
/// receiver's, and an OFS-delta counts back to where its base was written, not to where it stood in
/// the source.
pub proof fn law_reused_delta_has_an_earlier_base(
    plan: PackEntryPlan,
    source: ValidatedPackEntry,
    offsets: Map<ObjectId, u64>,
    capabilities: PackReuseCapabilities,
    output_offset: u64,
)
    requires
        plan.follows(source, offsets, capabilities, output_offset),
    ensures
        plan matches PackEntryPlan::RefDelta(entry) ==> offsets.dom().contains(entry.base)
            && offsets[entry.base] < output_offset,
        plan matches PackEntryPlan::OfsDelta(entry) ==> capabilities.ofs_delta
            && entry.base_output_offset < output_offset && offsets.contains_value(
            entry.base_output_offset,
        ),
{
}

} // verus!
