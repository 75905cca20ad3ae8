//! Git delta instructions: what a delta means, and how it is checked and applied.

use vstd::prelude::*;

verus! {

/// Whether the opcode has the flag of weight `weight`: one or zero.
#[verifier::opaque]
pub open spec fn flag(op: u8, weight: int) -> int {
    (op as int / weight) % 2
}

/// How many argument bytes follow a copy opcode.
pub open spec fn copy_args(op: u8) -> int {
    flag(op, 1) + flag(op, 2) + flag(op, 4) + flag(op, 8) + flag(op, 16) + flag(op, 32) + flag(
        op,
        64,
    )
}

/// One argument byte, or zero where its flag is not set.
pub open spec fn copy_arg(code: Seq<u8>, at: int, op: u8, weight: int) -> int {
    if flag(op, weight) == 1 {
        code[at] as int
    } else {
        0
    }
}

/// The base offset of the copy instruction at `at`.
pub open spec fn copy_offset(code: Seq<u8>, at: int) -> int {
    let op = code[at];
    let a = at + 1;
    let b = a + flag(op, 1);
    let c = b + flag(op, 2);
    let d = c + flag(op, 4);
    copy_arg(code, a, op, 1) + 256 * copy_arg(code, b, op, 2) + 65_536 * copy_arg(code, c, op, 4)
        + 16_777_216 * copy_arg(code, d, op, 8)
}

/// The length of the copy instruction at `at`; a spelled zero stands for 65536.
pub open spec fn copy_size(code: Seq<u8>, at: int) -> int {
    let op = code[at];
    let e = at + 1 + flag(op, 1) + flag(op, 2) + flag(op, 4) + flag(op, 8);
    let f = e + flag(op, 16);
    let g = f + flag(op, 32);
    let spelled = copy_arg(code, e, op, 16) + 256 * copy_arg(code, f, op, 32) + 65_536 * copy_arg(
        code,
        g,
        op,
        64,
    );
    if spelled == 0 {
        65_536
    } else {
        spelled
    }
}

/// What the instructions from `at` on make of `base`.
///
/// An opcode below 128 inserts that many literal bytes, zero is reserved, and any other opcode
/// copies a range of the base.
pub open spec fn delta_apply(base: Seq<u8>, code: Seq<u8>, at: int) -> Option<Seq<u8>>
    decreases code.len() - at,
{
    if at < 0 || at > code.len() {
        None
    } else if at == code.len() {
        Some(Seq::empty())
    } else if code[at] == 0 {
        None
    } else if code[at] < 128 {
        let end = at + 1 + code[at];
        if end > code.len() {
            None
        } else {
            match delta_apply(base, code, end) {
                Some(rest) => Some(code.subrange(at + 1, end) + rest),
                None => None,
            }
        }
    } else {
        let end = at + 1 + copy_args(code[at]);
        let from = copy_offset(code, at);
        let to = from + copy_size(code, at);
        if end > code.len() || to > base.len() {
            None
        } else {
            proof {
                lemma_flags(code[at]);
            }
            match delta_apply(base, code, end) {
                Some(rest) => Some(base.subrange(from, to) + rest),
                None => None,
            }
        }
    }
}

/// Outcome of measuring a delta without its base.
#[derive(Clone, Copy, Debug, PartialEq, Eq, Structural)]
pub enum DeltaScan {
    /// The instructions are well formed and make this many bytes.
    Made(u64),
    /// Some instruction is malformed or reads outside the base.
    Malformed,
    /// The instructions make more bytes than 64 bits can count.
    Overflow,
}

/// The outcome of measuring the instructions from `at` on, after `made` bytes.
pub open spec fn delta_scan(base_len: int, code: Seq<u8>, at: int, made: int) -> DeltaScan
    decreases code.len() - at,
{
    if at < 0 || at > code.len() {
        DeltaScan::Malformed
    } else if at == code.len() {
        DeltaScan::Made(made as u64)
    } else if code[at] == 0 {
        DeltaScan::Malformed
    } else if code[at] < 128 {
        let end = at + 1 + code[at];
        if end > code.len() {
            DeltaScan::Malformed
        } else if made + code[at] > u64::MAX {
            DeltaScan::Overflow
        } else {
            delta_scan(base_len, code, end, made + code[at])
        }
    } else {
        let end = at + 1 + copy_args(code[at]);
        let size = copy_size(code, at);
        if end > code.len() || copy_offset(code, at) + size > base_len {
            DeltaScan::Malformed
        } else if made + size > u64::MAX {
            DeltaScan::Overflow
        } else {
            proof {
                lemma_flags(code[at]);
            }
            delta_scan(base_len, code, end, made + size)
        }
    }
}

/// Measuring agrees with applying: measured instructions apply to every base of that length and
/// make that many bytes, and malformed ones apply to none.
pub proof fn law_scan_measures_apply(base: Seq<u8>, code: Seq<u8>, at: int, made: int)
    requires
        0 <= made <= u64::MAX,
    ensures
        match delta_scan(base.len() as int, code, at, made) {
            DeltaScan::Made(total) => delta_apply(base, code, at) is Some && delta_apply(
                base,
                code,
                at,
            )->0.len() == total - made,
            DeltaScan::Malformed => delta_apply(base, code, at) is None,
            DeltaScan::Overflow => delta_apply(base, code, at) is Some ==> delta_apply(
                base,
                code,
                at,
            )->0.len() > u64::MAX - made,
        },
    decreases code.len() - at,
{
    if 0 <= at < code.len() && code[at] != 0 {
        lemma_copy_bounds(code, at);
        if code[at] < 128 {
            let end = at + 1 + code[at];
            if end <= code.len() && made + code[at] <= u64::MAX {
                law_scan_measures_apply(base, code, end, made + code[at]);
            }
        } else {
            let end = at + 1 + copy_args(code[at]);
            let size = copy_size(code, at);
            if end <= code.len() && copy_offset(code, at) + size <= base.len() && made + size
                <= u64::MAX {
                law_scan_measures_apply(base, code, end, made + size);
            }
        }
    }
}

/// A flag is one or zero.
pub proof fn lemma_flags(op: u8)
    ensures
        forall|weight: int| weight > 0 ==> 0 <= #[trigger] flag(op, weight) <= 1,
{
    reveal(flag);
}

/// The ranges that a copy instruction's fields can take.
pub proof fn lemma_copy_bounds(code: Seq<u8>, at: int)
    ensures
        0 <= copy_args(code[at]) <= 7,
        0 <= copy_offset(code, at) <= 0xffff_ffff,
        1 <= copy_size(code, at) <= 0xff_ffff,
{
    lemma_flags(code[at]);
}

/// Returns one flag of an opcode as a number.
fn flag_of(op: u8, weight: u8) -> (set: usize)
    requires
        weight > 0,
    ensures
        set == flag(op, weight as int),
        set <= 1,
{
    reveal(flag);
    ((op / weight) % 2) as usize
}

/// One decoded copy instruction.
#[derive(Clone, Copy, Debug, PartialEq, Eq, Structural)]
pub struct CopyInstruction {
    /// Base offset.
    pub offset: u64,
    /// Length.
    pub size: u64,
    /// The position after the instruction.
    pub next: usize,
}

/// Returns the argument byte at `at`, or zero where it is absent.
fn arg_at(code: &[u8], at: usize, present: usize) -> (value: u64)
    requires
        present == 1 ==> at < code@.len(),
    ensures
        value == if present == 1 {
            code@[at as int] as int
        } else {
            0
        },
        value <= 255,
{
    if present == 1 {
        code[at] as u64
    } else {
        0
    }
}

/// Decodes the copy instruction whose opcode stands at `at`.
pub fn read_copy(code: &[u8], at: usize) -> (read: Option<CopyInstruction>)
    requires
        at < code@.len(),
        code@[at as int] >= 128,
    ensures
        match read {
            Some(copy) => copy.next == at + 1 + copy_args(code@[at as int]) && copy.next
                <= code@.len() && copy.offset == copy_offset(code@, at as int) && copy.size
                == copy_size(code@, at as int),
            None => at + 1 + copy_args(code@[at as int]) > code@.len(),
        },
{
    let op: u8 = code[at];
    let one: usize = flag_of(op, 1);
    let two: usize = flag_of(op, 2);
    let four: usize = flag_of(op, 4);
    let eight: usize = flag_of(op, 8);
    let sixteen: usize = flag_of(op, 16);
    let thirty_two: usize = flag_of(op, 32);
    let sixty_four: usize = flag_of(op, 64);
    let count: usize = one + two + four + eight + sixteen + thirty_two + sixty_four;
    if count > code.len() - at - 1 {
        return None;
    }
    let a: usize = at + 1;
    let b: usize = a + one;
    let c: usize = b + two;
    let d: usize = c + four;
    let e: usize = d + eight;
    let f: usize = e + sixteen;
    let g: usize = f + thirty_two;
    let offset: u64 = arg_at(code, a, one) + 256 * arg_at(code, b, two) + 65_536 * arg_at(
        code,
        c,
        four,
    ) + 16_777_216 * arg_at(code, d, eight);
    let spelled: u64 = arg_at(code, e, sixteen) + 256 * arg_at(code, f, thirty_two) + 65_536
        * arg_at(code, g, sixty_four);
    let size: u64 = if spelled == 0 {
        65_536
    } else {
        spelled
    };
    Some(CopyInstruction { offset, size, next: g + sixty_four })
}

/// Measures the instructions from `at` on against a base of `base_len` bytes.
pub fn scan_instructions(base_len: u64, code: &[u8], at: usize) -> (scan: DeltaScan)
    requires
        at <= code@.len(),
    ensures
        scan == delta_scan(base_len as int, code@, at as int, 0),
{
    let mut cursor: usize = at;
    let mut made: u64 = 0;
    while cursor < code.len()
        invariant
            cursor <= code@.len(),
            delta_scan(base_len as int, code@, at as int, 0) == delta_scan(
                base_len as int,
                code@,
                cursor as int,
                made as int,
            ),
        decreases code.len() - cursor,
    {
        let op: u8 = code[cursor];
        if op == 0 {
            return DeltaScan::Malformed;
        }
        if op < 128 {
            if op as usize > code.len() - cursor - 1 {
                return DeltaScan::Malformed;
            }
            match made.checked_add(op as u64) {
                Some(total) => {
                    made = total;
                },
                None => {
                    return DeltaScan::Overflow;
                },
            }
            cursor = cursor + 1 + op as usize;
        } else {
            proof {
                lemma_copy_bounds(code@, cursor as int);
            }
            let copy = match read_copy(code, cursor) {
                Some(copy) => copy,
                None => {
                    return DeltaScan::Malformed;
                },
            };
            if copy.offset + copy.size > base_len {
                return DeltaScan::Malformed;
            }
            match made.checked_add(copy.size) {
                Some(total) => {
                    made = total;
                },
                None => {
                    return DeltaScan::Overflow;
                },
            }
            cursor = copy.next;
        }
    }
    DeltaScan::Made(made)
}

/// Applies the instructions from `at` on to `base`, if they make exactly `expected` bytes.
pub fn apply_instructions(base: &[u8], code: &[u8], at: usize, expected: usize) -> (made: Option<
    Vec<u8>,
>)
    requires
        at <= code@.len(),
    ensures
        match made {
            Some(bytes) => delta_apply(base@, code@, at as int) == Some(bytes@) && bytes@.len()
                == expected,
            None => delta_apply(base@, code@, at as int) is None || delta_apply(
                base@,
                code@,
                at as int,
            )->0.len() != expected,
        },
{
    let mut out: Vec<u8> = Vec::new();
    let mut cursor: usize = at;
    while cursor < code.len()
        invariant
            cursor <= code@.len(),
            out@.len() <= expected,
            delta_apply(base@, code@, at as int) is Some <==> delta_apply(
                base@,
                code@,
                cursor as int,
            ) is Some,
            delta_apply(base@, code@, at as int) is Some ==> delta_apply(base@, code@, at as int)->0
                == out@ + delta_apply(base@, code@, cursor as int)->0,
        decreases code.len() - cursor,
    {
        let ghost before = out@;
        let ghost from_here = delta_apply(base@, code@, cursor as int);
        let op: u8 = code[cursor];
        if op == 0 {
            return None;
        }
        if op < 128 {
            let length: usize = op as usize;
            if length > code.len() - cursor - 1 {
                return None;
            }
            if length > expected - out.len() {
                return None;
            }
            let next: usize = cursor + 1 + length;
            let literal: Vec<u8> = crate::bytes::copy_range(code, cursor + 1, next);
            crate::bytes::append_bytes(&mut out, literal.as_slice());
            proof {
                if from_here is Some {
                    let rest = delta_apply(base@, code@, next as int)->0;
                    assert(before + (literal@ + rest) =~= out@ + rest);
                }
            }
            cursor = next;
        } else {
            proof {
                lemma_copy_bounds(code@, cursor as int);
            }
            let copy = match read_copy(code, cursor) {
                Some(copy) => copy,
                None => {
                    return None;
                },
            };
            if copy.offset + copy.size > base.len() as u64 {
                return None;
            }
            if copy.size > (expected - out.len()) as u64 {
                return None;
            }
            let range: Vec<u8> = crate::bytes::copy_range(
                base,
                copy.offset as usize,
                (copy.offset + copy.size) as usize,
            );
            crate::bytes::append_bytes(&mut out, range.as_slice());
            proof {
                if from_here is Some {
                    let rest = delta_apply(base@, code@, copy.next as int)->0;
                    assert(before + (range@ + rest) =~= out@ + rest);
                }
            }
            cursor = copy.next;
        }
    }
    assert(out@ + Seq::<u8>::empty() =~= out@);
    if out.len() != expected {
        return None;
    }
    Some(out)
}

} // verus!
