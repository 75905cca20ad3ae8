//! Variable-length integers of the PACK format.
//!
//! Entry headers and delta sizes use base-128 digits, least significant first, with the high bit of
//! every byte but the last set. OFS-delta distances use base-128 digits, most significant first,
//! with one added at every continuation.

use vstd::prelude::*;

verus! {

/// One more than the largest 64-bit number.
pub open spec fn two64() -> int {
    0x1_0000_0000_0000_0000
}

/// The shortest base-128 encoding of `value`.
pub open spec fn varint(value: nat) -> Seq<u8>
    decreases value,
{
    if value < 128 {
        seq![value as u8]
    } else {
        seq![(128 + value % 128) as u8] + varint(value / 128)
    }
}

/// The entry header of a PACK entry: type code and four size bits, then the remaining size.
pub open spec fn entry_header(code: u8, size: nat) -> Seq<u8> {
    if size < 16 {
        seq![(code * 16 + size) as u8]
    } else {
        seq![(128 + code * 16 + size % 16) as u8] + varint(size / 16)
    }
}

/// `bytes` holds `part` starting at `at`.
pub open spec fn holds_at(bytes: Seq<u8>, at: int, part: Seq<u8>) -> bool {
    0 <= at && at + part.len() <= bytes.len() && bytes.subrange(at, at + part.len()) == part
}

/// The length of a shortest encoding, and the number that fits in that many digits.
pub proof fn lemma_varint_shape(value: nat)
    ensures
        varint(value).len() >= 1,
        forall|i: int| 0 <= i < varint(value).len() - 1 ==> varint(value)[i] >= 128,
        varint(value).last() < 128,
        varint(value).len() > 1 ==> varint(value).last() > 0,
    decreases value,
{
    if value >= 128 {
        lemma_varint_shape(value / 128);
        let rest = varint(value / 128);
        assert(varint(value).last() == rest.last());
        assert forall|i: int| 0 <= i < varint(value).len() - 1 implies varint(value)[i] >= 128 by {
            if i > 0 {
                assert(varint(value)[i] == rest[i - 1]);
            }
        }
    }
}

/// A number below `128` to the power `digits` has at most `digits` digits.
pub proof fn lemma_varint_len(value: nat, digits: nat)
    requires
        digits >= 1,
        value < pow128(digits),
    ensures
        varint(value).len() <= digits,
    decreases digits,
{
    if value >= 128 {
        if digits == 1 {
            assert(pow128(1) == 128) by {
                reveal_with_fuel(pow128, 2);
            }
        } else {
            lemma_varint_len(value / 128, (digits - 1) as nat);
        }
    }
}

/// 128 to the power `digits`.
pub open spec fn pow128(digits: nat) -> int
    decreases digits,
{
    if digits == 0 {
        1
    } else {
        128 * pow128((digits - 1) as nat)
    }
}

/// The powers of 128 near the 64-bit boundary.
pub proof fn lemma_pow128_values()
    ensures
        pow128(9) == 0x8000_0000_0000_0000,
        pow128(10) == 0x40_0000_0000_0000_0000,
{
    reveal_with_fuel(pow128, 11);
}

/// Two shortest encodings that start at one place spell one number.
pub proof fn law_varint_spells_one_number(bytes: Seq<u8>, at: int, left: nat, right: nat)
    requires
        holds_at(bytes, at, varint(left)),
        holds_at(bytes, at, varint(right)),
    ensures
        left == right,
    decreases left,
{
    let a = varint(left);
    let b = varint(right);
    lemma_varint_shape(left);
    lemma_varint_shape(right);
    assert(a[0] == bytes.subrange(at, at + a.len())[0]);
    assert(b[0] == bytes.subrange(at, at + b.len())[0]);
    assert(a[0] == b[0]);
    if left < 128 {
        if right >= 128 {
            assert(b[0] >= 128);
        }
    } else {
        if right < 128 {
            assert(a[0] >= 128);
        } else {
            let ra = varint(left / 128);
            let rb = varint(right / 128);
            assert(bytes.subrange(at + 1, at + 1 + ra.len()) =~= ra) by {
                assert forall|i: int| 0 <= i < ra.len() implies bytes[at + 1 + i] == ra[i] by {
                    assert(bytes.subrange(at, at + a.len())[i + 1] == a[i + 1]);
                }
            }
            assert(bytes.subrange(at + 1, at + 1 + rb.len()) =~= rb) by {
                assert forall|i: int| 0 <= i < rb.len() implies bytes[at + 1 + i] == rb[i] by {
                    assert(bytes.subrange(at, at + b.len())[i + 1] == b[i + 1]);
                }
            }
            law_varint_spells_one_number(bytes, at + 1, left / 128, right / 128);
        }
    }
}

/// Two entry headers that start at one place have one code and one size.
pub proof fn law_entry_header_spells_one_entry(
    bytes: Seq<u8>,
    at: int,
    code: u8,
    size: nat,
    other_code: u8,
    other_size: nat,
)
    requires
        code < 8,
        other_code < 8,
        holds_at(bytes, at, entry_header(code, size)),
        holds_at(bytes, at, entry_header(other_code, other_size)),
    ensures
        code == other_code,
        size == other_size,
{
    let a = entry_header(code, size);
    let b = entry_header(other_code, other_size);
    assert(a[0] == bytes.subrange(at, at + a.len())[0]);
    assert(b[0] == bytes.subrange(at, at + b.len())[0]);
    if size >= 16 && other_size >= 16 {
        let ra = varint(size / 16);
        let rb = varint(other_size / 16);
        assert(bytes.subrange(at + 1, at + 1 + ra.len()) =~= ra) by {
            assert forall|i: int| 0 <= i < ra.len() implies bytes[at + 1 + i] == ra[i] by {
                assert(bytes.subrange(at, at + a.len())[i + 1] == a[i + 1]);
            }
        }
        assert(bytes.subrange(at + 1, at + 1 + rb.len()) =~= rb) by {
            assert forall|i: int| 0 <= i < rb.len() implies bytes[at + 1 + i] == rb[i] by {
                assert(bytes.subrange(at, at + b.len())[i + 1] == b[i + 1]);
            }
        }
        law_varint_spells_one_number(bytes, at + 1, size / 16, other_size / 16);
    }
}

/// Appends the shortest base-128 encoding of `value`.
pub fn push_varint(out: &mut Vec<u8>, value: u64)
    ensures
        final(out)@ == old(out)@ + varint(value as nat),
{
    let ghost before = out@;
    let mut rest: u64 = value;
    while rest >= 128
        invariant
            before + varint(value as nat) == out@ + varint(rest as nat),
        decreases rest,
    {
        let ghost prior = out@;
        let ghost prior_rest = rest;
        out.push((128 + rest % 128) as u8);
        rest = rest / 128;
        proof {
            assert(prior + varint(prior_rest as nat) =~= out@ + varint(rest as nat));
        }
    }
    out.push(rest as u8);
    assert(out@ =~= before + varint(value as nat));
}

/// Appends a PACK entry header.
pub fn push_entry_header(out: &mut Vec<u8>, code: u8, size: u64)
    requires
        code < 8,
    ensures
        final(out)@ == old(out)@ + entry_header(code, size as nat),
{
    if size < 16 {
        out.push(code * 16 + size as u8);
    } else {
        out.push(128 + code * 16 + (size % 16) as u8);
        push_varint(out, size / 16);
    }
    assert(out@ =~= old(out)@ + entry_header(code, size as nat));
}

/// A base-128 number read from bytes.
#[derive(Clone, Copy, Debug, PartialEq, Eq, Structural)]
pub struct ReadNumber {
    /// The number.
    pub value: u64,
    /// The position after its last byte.
    pub next: usize,
}

/// Reads a shortest encoding of a number below 2^64 that starts at `at`.
///
/// Nothing is returned where the bytes end early, spell a larger number or carry a needless zero
/// digit.
pub fn read_varint(bytes: &[u8], at: usize) -> (read: Option<ReadNumber>)
    ensures
        match read {
            Some(found) => holds_at(bytes@, at as int, varint(found.value as nat)) && found.next
                == at + varint(found.value as nat).len(),
            None => forall|value: nat|
                value < two64() ==> !holds_at(bytes@, at as int, #[trigger] varint(value)),
        },
{
    read_varint_bounded(bytes, at, u64::MAX)
}

/// Reads a shortest encoding of a number of at most `limit` that starts at `at`.
pub fn read_varint_bounded(bytes: &[u8], at: usize, limit: u64) -> (read: Option<ReadNumber>)
    ensures
        match read {
            Some(found) => holds_at(bytes@, at as int, varint(found.value as nat)) && found.next
                == at + varint(found.value as nat).len() && found.value <= limit,
            None => forall|value: nat|
                value <= limit ==> !holds_at(bytes@, at as int, #[trigger] varint(value)),
        },
    decreases bytes@.len() - at,
{
    if at >= bytes.len() {
        proof {
            assert forall|value: nat| value <= limit implies !holds_at(
                bytes@,
                at as int,
                #[trigger] varint(value),
            ) by {
                lemma_varint_shape(value);
            }
        }
        return None;
    }
    let byte: u8 = bytes[at];
    if byte < 128 {
        let found = if byte as u64 <= limit {
            Some(ReadNumber { value: byte as u64, next: at + 1 })
        } else {
            None
        };
        proof {
            assert(bytes@.subrange(at as int, at + 1) =~= varint(byte as nat));
            assert forall|value: nat| value <= limit && byte as nat > limit implies !holds_at(
                bytes@,
                at as int,
                #[trigger] varint(value),
            ) by {
                if holds_at(bytes@, at as int, varint(value)) {
                    law_varint_spells_one_number(bytes@, at as int, value, byte as nat);
                }
            }
        }
        return found;
    }
    let digit: u64 = (byte - 128) as u64;
    let rest_limit: u64 = if digit <= limit {
        (limit - digit) / 128
    } else {
        0
    };
    let rest = read_varint_bounded(bytes, at + 1, rest_limit);
    match rest {
        Some(found) => {
            if found.value == 0 || digit > limit {
                proof {
                    lemma_long_varint_absent(bytes@, at as int, found.value as nat);
                    assert forall|value: nat| value <= limit implies !holds_at(
                        bytes@,
                        at as int,
                        #[trigger] varint(value),
                    ) by {
                        lemma_varint_tail(bytes@, at as int, value);
                        if holds_at(bytes@, at as int, varint(value)) {
                            law_varint_spells_one_number(
                                bytes@,
                                at + 1,
                                value / 128,
                                found.value as nat,
                            );
                        }
                    }
                }
                None
            } else {
                let value: u64 = digit + found.value * 128;
                proof {
                    let encoded = varint(value as nat);
                    assert(value / 128 == found.value);
                    assert(value % 128 == digit);
                    let tail = varint(found.value as nat);
                    assert(bytes@.subrange(at as int, at + encoded.len()) =~= encoded) by {
                        assert forall|i: int| 0 <= i < encoded.len() implies bytes@[at + i]
                            == encoded[i] by {
                            if i > 0 {
                                assert(bytes@.subrange(at + 1, at + 1 + tail.len())[i - 1]
                                    == tail[i - 1]);
                            }
                        }
                    }
                }
                Some(ReadNumber { value, next: found.next })
            }
        },
        None => {
            proof {
                assert forall|value: nat| value <= limit implies !holds_at(
                    bytes@,
                    at as int,
                    #[trigger] varint(value),
                ) by {
                    lemma_varint_tail(bytes@, at as int, value);
                }
            }
            None
        },
    }
}

/// After a byte with the high bit set, an encoding goes on with the encoding of its upper digits.
proof fn lemma_varint_tail(bytes: Seq<u8>, at: int, value: nat)
    requires
        0 <= at < bytes.len(),
        bytes[at] >= 128,
    ensures
        holds_at(bytes, at, varint(value)) ==> value >= 128 && value % 128 == bytes[at] - 128
            && holds_at(bytes, at + 1, varint(value / 128)),
{
    if holds_at(bytes, at, varint(value)) {
        let a = varint(value);
        lemma_varint_shape(value);
        assert(bytes.subrange(at, at + a.len())[0] == a[0]);
        let rest = varint(value / 128);
        assert(bytes.subrange(at + 1, at + 1 + rest.len()) =~= rest) by {
            assert forall|i: int| 0 <= i < rest.len() implies bytes[at + 1 + i] == rest[i] by {
                assert(bytes.subrange(at, at + a.len())[i + 1] == a[i + 1]);
            }
        }
    }
}

/// A continuation byte followed by the single digit zero starts no shortest encoding.
proof fn lemma_long_varint_absent(bytes: Seq<u8>, at: int, rest: nat)
    requires
        0 <= at < bytes.len(),
        bytes[at] >= 128,
        holds_at(bytes, at + 1, varint(rest)),
    ensures
        rest == 0 ==> forall|value: nat| !holds_at(bytes, at, #[trigger] varint(value)),
{
    if rest == 0 {
        assert forall|value: nat| !holds_at(bytes, at, #[trigger] varint(value)) by {
            lemma_varint_tail(bytes, at, value);
            if holds_at(bytes, at, varint(value)) {
                law_varint_spells_one_number(bytes, at + 1, value / 128, 0);
            }
        }
    }
}

/// An entry header read from bytes.
#[derive(Clone, Copy, Debug, PartialEq, Eq, Structural)]
pub struct ReadHeader {
    /// Entry type code.
    pub code: u8,
    /// Declared size.
    pub size: u64,
    /// The position after the header.
    pub next: usize,
}

/// Reads a canonical entry header that starts at `at`.
pub fn read_entry_header_at(bytes: &[u8], at: usize) -> (read: Option<ReadHeader>)
    ensures
        match read {
            Some(found) => found.code < 8 && holds_at(
                bytes@,
                at as int,
                entry_header(found.code, found.size as nat),
            ) && found.next == at + entry_header(found.code, found.size as nat).len(),
            None => forall|code: u8, size: nat|
                code < 8 && size < two64() ==> !holds_at(
                    bytes@,
                    at as int,
                    #[trigger] entry_header(code, size),
                ),
        },
{
    if at >= bytes.len() {
        proof {
            assert forall|code: u8, size: nat| code < 8 && size < two64() implies !holds_at(
                bytes@,
                at as int,
                #[trigger] entry_header(code, size),
            ) by {
                assert(entry_header(code, size).len() >= 1);
            }
        }
        return None;
    }
    let first: u8 = bytes[at];
    if first < 128 {
        let code: u8 = first / 16;
        let size: u64 = (first % 16) as u64;
        assert(bytes@.subrange(at as int, at + 1) =~= entry_header(code, size as nat));
        return Some(ReadHeader { code, size, next: at + 1 });
    }
    let code: u8 = (first - 128) / 16;
    let low: u64 = (first % 16) as u64;
    let rest = read_varint_bounded(bytes, at + 1, u64::MAX / 16);
    match rest {
        Some(found) => {
            if found.value == 0 {
                proof {
                    assert forall|other: u8, size: nat| other < 8 && size
                        < two64() implies !holds_at(
                        bytes@,
                        at as int,
                        #[trigger] entry_header(other, size),
                    ) by {
                        lemma_entry_header_tail(bytes@, at as int, other, size);
                        if holds_at(bytes@, at as int, entry_header(other, size)) {
                            law_varint_spells_one_number(bytes@, at + 1, size / 16, 0);
                        }
                    }
                }
                None
            } else {
                let size: u64 = low + found.value * 16;
                proof {
                    let encoded = entry_header(code, size as nat);
                    assert(size / 16 == found.value);
                    assert(size % 16 == low);
                    let tail = varint(found.value as nat);
                    assert(bytes@.subrange(at as int, at + encoded.len()) =~= encoded) by {
                        assert forall|i: int| 0 <= i < encoded.len() implies bytes@[at + i]
                            == encoded[i] by {
                            if i > 0 {
                                assert(bytes@.subrange(at + 1, at + 1 + tail.len())[i - 1]
                                    == tail[i - 1]);
                            }
                        }
                    }
                }
                Some(ReadHeader { code, size, next: found.next })
            }
        },
        None => {
            proof {
                assert forall|other: u8, size: nat| other < 8 && size < two64() implies !holds_at(
                    bytes@,
                    at as int,
                    #[trigger] entry_header(other, size),
                ) by {
                    lemma_entry_header_tail(bytes@, at as int, other, size);
                }
            }
            None
        },
    }
}

/// After a first byte with the high bit set, a header goes on with the encoding of its upper size.
proof fn lemma_entry_header_tail(bytes: Seq<u8>, at: int, code: u8, size: nat)
    requires
        0 <= at < bytes.len(),
        bytes[at] >= 128,
        code < 8,
    ensures
        holds_at(bytes, at, entry_header(code, size)) ==> size >= 16 && holds_at(
            bytes,
            at + 1,
            varint(size / 16),
        ),
{
    if holds_at(bytes, at, entry_header(code, size)) {
        let a = entry_header(code, size);
        assert(bytes.subrange(at, at + a.len())[0] == a[0]);
        let rest = varint(size / 16);
        if size >= 16 {
            assert(bytes.subrange(at + 1, at + 1 + rest.len()) =~= rest) by {
                assert forall|i: int| 0 <= i < rest.len() implies bytes[at + 1 + i] == rest[i] by {
                    assert(bytes.subrange(at, at + a.len())[i + 1] == a[i + 1]);
                }
            }
        }
    }
}

/// An entry header of a 64-bit size takes at most ten bytes.
pub proof fn lemma_entry_header_len(code: u8, size: nat)
    requires
        size < two64(),
    ensures
        1 <= entry_header(code, size).len() <= 10,
{
    if size >= 16 {
        lemma_pow128_values();
        lemma_varint_len(size / 16, 9);
        lemma_varint_shape(size / 16);
    }
}

/// The encoding of an OFS-delta distance: most significant digit first, one subtracted from every
/// digit group above the last.
pub open spec fn ofs_distance(distance: nat) -> Seq<u8>
    decreases distance,
{
    if distance < 128 {
        seq![distance as u8]
    } else {
        ofs_prefix((distance / 128 - 1) as nat).push((distance % 128) as u8)
    }
}

/// The digits above the last one, each with the high bit set.
pub open spec fn ofs_prefix(value: nat) -> Seq<u8>
    decreases value,
{
    if value < 128 {
        seq![(128 + value) as u8]
    } else {
        ofs_prefix((value / 128 - 1) as nat).push((128 + value % 128) as u8)
    }
}

/// Appends the digits above the last one.
fn push_ofs_prefix(out: &mut Vec<u8>, value: u64)
    ensures
        final(out)@ == old(out)@ + ofs_prefix(value as nat),
    decreases value,
{
    if value >= 128 {
        push_ofs_prefix(out, value / 128 - 1);
    }
    out.push((128 + value % 128) as u8);
    assert(out@ =~= old(out)@ + ofs_prefix(value as nat));
}

/// Appends the encoding of a distance.
pub fn push_ofs_distance(out: &mut Vec<u8>, distance: u64)
    ensures
        final(out)@ == old(out)@ + ofs_distance(distance as nat),
{
    if distance >= 128 {
        push_ofs_prefix(out, distance / 128 - 1);
    }
    out.push((distance % 128) as u8);
    assert(out@ =~= old(out)@ + ofs_distance(distance as nat));
}

/// The value that a run of OFS digits spells, continuing from `acc`: each digit appends seven bits
/// to one more than what came before.
pub open spec fn ofs_fold(digits: Seq<u8>) -> int
    decreases digits.len(),
{
    if digits.len() == 0 {
        -1
    } else {
        (ofs_fold(digits.drop_last()) + 1) * 128 + digits.last() % 128
    }
}

/// Folding the digits of a distance gives the distance back.
pub proof fn law_ofs_distance_reads_back(distance: nat)
    ensures
        ofs_fold(ofs_distance(distance)) == distance,
        ofs_distance(distance).len() >= 1,
        ofs_distance(distance).last() < 128,
        forall|i: int|
            0 <= i < ofs_distance(distance).len() - 1 ==> ofs_distance(distance)[i] >= 128,
{
    reveal_with_fuel(ofs_fold, 2);
    if distance >= 128 {
        let upper = (distance / 128 - 1) as nat;
        lemma_ofs_prefix(upper);
        let s = ofs_distance(distance);
        assert(s.drop_last() =~= ofs_prefix(upper));
    } else {
        assert(ofs_distance(distance).drop_last() =~= Seq::<u8>::empty());
    }
}

/// Digits above the last one are no more than the powers that the value stays below.
proof fn lemma_ofs_prefix_len(value: nat, digits: nat)
    requires
        digits >= 1,
        value < pow128(digits),
    ensures
        1 <= ofs_prefix(value).len() <= digits,
    decreases digits,
{
    reveal_with_fuel(pow128, 2);
    if value >= 128 {
        lemma_ofs_prefix_len((value / 128 - 1) as nat, (digits - 1) as nat);
    }
}

/// A distance below the 63-bit boundary takes at most nine bytes.
pub proof fn lemma_ofs_distance_len(distance: nat)
    requires
        distance < 0x8000_0000_0000_0000,
    ensures
        1 <= ofs_distance(distance).len() <= 9,
{
    lemma_pow128_values();
    reveal_with_fuel(pow128, 2);
    if distance >= 128 {
        assert(pow128(9) == 128 * pow128(8));
        lemma_ofs_prefix_len((distance / 128 - 1) as nat, 8);
    }
}

proof fn lemma_ofs_prefix(value: nat)
    ensures
        ofs_fold(ofs_prefix(value)) == value,
        ofs_prefix(value).len() >= 1,
        forall|i: int| 0 <= i < ofs_prefix(value).len() ==> ofs_prefix(value)[i] >= 128,
    decreases value,
{
    reveal_with_fuel(ofs_fold, 2);
    if value >= 128 {
        let upper = (value / 128 - 1) as nat;
        lemma_ofs_prefix(upper);
        assert(ofs_prefix(value).drop_last() =~= ofs_prefix(upper));
    } else {
        assert(ofs_prefix(value).drop_last() =~= Seq::<u8>::empty());
    }
}

/// A number that was appended is the one number that reads back from there.
pub proof fn law_varint_reads_back(front: Seq<u8>, value: nat, other: nat)
    ensures
        holds_at(front + varint(value), front.len() as int, varint(value)),
        holds_at(front + varint(value), front.len() as int, varint(other)) ==> other == value,
{
    let bytes = front + varint(value);
    let at = front.len() as int;
    assert(bytes.subrange(at, at + varint(value).len()) =~= varint(value));
    if holds_at(bytes, at, varint(other)) {
        law_varint_spells_one_number(bytes, at, other, value);
    }
}

/// An entry header that was appended is the one header that reads back from there.
pub proof fn law_entry_header_reads_back(
    front: Seq<u8>,
    code: u8,
    size: nat,
    other_code: u8,
    other_size: nat,
)
    requires
        code < 8,
        other_code < 8,
    ensures
        holds_at(front + entry_header(code, size), front.len() as int, entry_header(code, size)),
        holds_at(
            front + entry_header(code, size),
            front.len() as int,
            entry_header(other_code, other_size),
        ) ==> other_code == code && other_size == size,
{
    let bytes = front + entry_header(code, size);
    let at = front.len() as int;
    assert(bytes.subrange(at, at + entry_header(code, size).len()) =~= entry_header(code, size));
    if holds_at(bytes, at, entry_header(other_code, other_size)) {
        law_entry_header_spells_one_entry(bytes, at, code, size, other_code, other_size);
    }
}

} // verus!
