//! Big-endian integers inside byte sequences.

use vstd::prelude::*;

verus! {

/// The `width` low-order base-256 digits of `value`, most significant first.
pub open spec fn be_bytes(value: int, width: nat) -> Seq<u8>
    decreases width,
{
    if width == 0 {
        Seq::empty()
    } else {
        be_bytes(value / 256, (width - 1) as nat).push((value % 256) as u8)
    }
}

/// The number that `bytes` spells in base 256, most significant digit first.
pub open spec fn be_value(bytes: Seq<u8>) -> int
    decreases bytes.len(),
{
    if bytes.len() == 0 {
        0
    } else {
        be_value(bytes.drop_last()) * 256 + bytes.last()
    }
}

/// 256 to the power `width`.
pub open spec fn pow256(width: nat) -> int
    decreases width,
{
    if width == 0 {
        1
    } else {
        pow256((width - 1) as nat) * 256
    }
}

/// An encoding is as long as its width says.
pub proof fn lemma_be_bytes_len(value: int, width: nat)
    ensures
        be_bytes(value, width).len() == width,
    decreases width,
{
    if width > 0 {
        lemma_be_bytes_len(value / 256, (width - 1) as nat);
    }
}

/// A decoded number is below the power of 256 that its length names.
pub proof fn lemma_be_value_range(bytes: Seq<u8>)
    ensures
        0 <= be_value(bytes) < pow256(bytes.len()),
    decreases bytes.len(),
{
    if bytes.len() > 0 {
        lemma_be_value_range(bytes.drop_last());
    }
}

/// Decoding undoes encoding for every number that fits the width.
pub proof fn lemma_be_decode_encode(value: int, width: nat)
    requires
        0 <= value < pow256(width),
    ensures
        be_value(be_bytes(value, width)) == value,
    decreases width,
{
    if width > 0 {
        let rest = be_bytes(value / 256, (width - 1) as nat);
        lemma_be_decode_encode(value / 256, (width - 1) as nat);
        assert(rest.push((value % 256) as u8).drop_last() =~= rest);
    }
}

/// Encoding undoes decoding.
pub proof fn lemma_be_encode_decode(bytes: Seq<u8>)
    ensures
        be_bytes(be_value(bytes), bytes.len()) == bytes,
    decreases bytes.len(),
{
    if bytes.len() > 0 {
        let rest = bytes.drop_last();
        lemma_be_encode_decode(rest);
        lemma_be_value_range(rest);
        assert(be_value(bytes) / 256 == be_value(rest));
        assert(be_value(bytes) % 256 == bytes.last());
        assert(rest.push(bytes.last()) =~= bytes);
    } else {
        assert(be_bytes(0, 0) =~= bytes);
    }
}

/// The powers of 256 at the widths that the formats use.
pub proof fn lemma_pow256_values()
    ensures
        pow256(4) == 0x1_0000_0000,
        pow256(8) == 0x1_0000_0000_0000_0000,
        pow256(16) == 0x1_0000_0000_0000_0000_0000_0000_0000_0000,
{
    reveal_with_fuel(pow256, 17);
}

/// A longer sequence decodes to no smaller a power of 256.
proof fn lemma_pow256_monotone(small: nat, large: nat)
    requires
        small <= large,
    ensures
        0 < pow256(small) <= pow256(large),
    decreases large,
{
    if small < large {
        lemma_pow256_monotone(small, (large - 1) as nat);
    } else if large > 0 {
        lemma_pow256_monotone((small - 1) as nat, (large - 1) as nat);
    }
}

/// Appends the `width` low-order bytes of `value`, most significant first.
pub fn push_be(out: &mut Vec<u8>, value: u128, width: usize)
    ensures
        final(out)@ == old(out)@ + be_bytes(value as int, width as nat),
{
    let ghost before = out@;
    let start: usize = out.len();
    let mut filled: usize = 0;
    while filled < width
        invariant
            filled <= width,
            out@.len() == start + filled,
            out@.take(start as int) == before,
            start == before.len(),
        decreases width - filled,
    {
        out.push(0);
        filled = filled + 1;
    }
    let end: usize = out.len();
    let mut rest: u128 = value;
    let mut left: usize = width;
    assert(be_bytes(value as int, width as nat) =~= be_bytes(rest as int, left as nat)
        + out@.subrange(start + left, start + width));
    while left > 0
        invariant
            left <= width,
            out@.len() == end,
            end == start + width,
            start == before.len(),
            out@.take(start as int) == before,
            be_bytes(value as int, width as nat) == be_bytes(rest as int, left as nat)
                + out@.subrange(start + left, start + width),
        decreases left,
    {
        let ghost prior = out@;
        let ghost prior_rest = rest as int;
        left = left - 1;
        out.set(start + left, (rest % 256) as u8);
        rest = rest / 256;
        proof {
            assert(out@.take(start as int) =~= before);
            assert(out@.subrange(start + left, start + width) =~= seq![(prior_rest % 256) as u8]
                + prior.subrange(start + left + 1, start + width));
            assert(be_bytes(value as int, width as nat) =~= be_bytes(rest as int, left as nat)
                + out@.subrange(start + left, start + width));
        }
    }
    assert(out@ =~= before + be_bytes(value as int, width as nat));
}

/// Appends `value` as four big-endian bytes.
pub fn push_be_u32(out: &mut Vec<u8>, value: u32)
    ensures
        final(out)@ == old(out)@ + be_bytes(value as int, 4),
{
    push_be(out, value as u128, 4);
}

/// Appends `value` as eight big-endian bytes.
pub fn push_be_u64(out: &mut Vec<u8>, value: u64)
    ensures
        final(out)@ == old(out)@ + be_bytes(value as int, 8),
{
    push_be(out, value as u128, 8);
}

/// Reads `bytes[from..to]` as a big-endian number.
pub fn read_be(bytes: &[u8], from: usize, to: usize) -> (value: u128)
    requires
        from <= to <= bytes@.len(),
        to - from <= 16,
    ensures
        value == be_value(bytes@.subrange(from as int, to as int)),
{
    let mut value: u128 = 0;
    let mut at: usize = from;
    while at < to
        invariant
            from <= at <= to <= bytes@.len(),
            to - from <= 16,
            value == be_value(bytes@.subrange(from as int, at as int)),
        decreases to - at,
    {
        proof {
            let next = bytes@.subrange(from as int, at + 1);
            assert(next.drop_last() =~= bytes@.subrange(from as int, at as int));
            lemma_be_value_range(next);
            lemma_pow256_monotone(next.len(), 16);
            lemma_pow256_values();
        }
        value = value * 256 + bytes[at] as u128;
        at = at + 1;
    }
    value
}

/// Appends every byte of `more`.
pub fn append_bytes(out: &mut Vec<u8>, more: &[u8])
    ensures
        final(out)@ == old(out)@ + more@,
{
    let ghost before = out@;
    let mut at: usize = 0;
    while at < more.len()
        invariant
            at <= more@.len(),
            out@ == before + more@.take(at as int),
        decreases more.len() - at,
    {
        out.push(more[at]);
        at = at + 1;
        assert(out@ =~= before + more@.take(at as int));
    }
    assert(more@.take(at as int) =~= more@);
}

/// Copies `bytes[from..to]`.
pub fn copy_range(bytes: &[u8], from: usize, to: usize) -> (copy: Vec<u8>)
    requires
        from <= to <= bytes@.len(),
    ensures
        copy@ == bytes@.subrange(from as int, to as int),
{
    let mut copy: Vec<u8> = Vec::new();
    let mut at: usize = from;
    while at < to
        invariant
            from <= at <= to <= bytes@.len(),
            copy@ == bytes@.subrange(from as int, at as int),
        decreases to - at,
    {
        copy.push(bytes[at]);
        at = at + 1;
        assert(copy@ =~= bytes@.subrange(from as int, at as int));
    }
    copy
}

/// Whether two byte slices hold the same bytes.
pub fn same_bytes(left: &[u8], right: &[u8]) -> (same: bool)
    ensures
        same == (left@ == right@),
{
    if left.len() != right.len() {
        return false;
    }
    let mut at: usize = 0;
    while at < left.len()
        invariant
            at <= left@.len(),
            left@.len() == right@.len(),
            forall|i: int| 0 <= i < at ==> left@[i] == right@[i],
        decreases left.len() - at,
    {
        if left[at] != right[at] {
            return false;
        }
        at = at + 1;
    }
    assert(left@ =~= right@);
    true
}

/// Collects the characters of a text.
pub fn text_chars(text: &String) -> (chars: Vec<char>)
    ensures
        chars@ == text@,
{
    let mut chars: Vec<char> = Vec::new();
    let ghost all = text@;
    for letter in walk: text.as_str().chars()
        invariant
            walk.seq() == all,
            chars@ == all.take(walk.index() as int),
    {
        let ghost at = walk.index() as int;
        chars.push(letter);
        assert(all.take(at + 1) =~= all.take(at).push(all[at]));
    }
    assert(all.take(all.len() as int) =~= all);
    chars
}

} // verus!
