//! Deterministic bounded delta selection and incremental PACK execution.
//!
//! Every object is compared with earlier objects of its kind in a sliding window. A delta is
//! generated only where a long common prefix makes it clearly smaller than the compressed object;
//! every other outcome is a direct entry.

use crate::budget::{short_of, spends, spent_within};
use crate::bytes::{append_bytes, copy_range};
use crate::delta_code::{
    copy_args, copy_offset, copy_size, delta_apply, delta_scan, flag, law_scan_measures_apply,
    lemma_flags, DeltaScan,
};
use crate::object::{HashAlgo, ObjectId, ObjectKind, StoredObject};
use crate::oid_map::OidMap;
use crate::pack_entry_reuse::{
    delta_header, delta_valid, digits_value, reads_size, size_ends, PackDependencySet,
    PackEntryPlan, PackRecompressReason, PackReuseCapabilities, ReusedOfsDeltaEntry,
    ReusedRefDeltaEntry, StoredPackEntryKind, ValidatedPackEntry,
};
use crate::pack_stream::{CancellationProbe, PackChunkSink};
use crate::pack_writer::{
    object_appended, object_explained, reuse_explained, reused_entry_bytes, stream_ended,
    IncrementalPackWriter, PackObjectWriteReport, PackWriterError, PackWriterFailure,
};
use crate::varint::{lemma_pow128_values, lemma_varint_len, lemma_varint_shape, two64, varint};
use crate::zlib::{
    compress_new, compress_step, compress_total_in, compress_total_out, deflate_input,
    deflate_outcome, deflate_output, zeroed, zlib_decoded, ZlibStatus,
};
use vstd::prelude::*;

verus! {

/// Hard ceiling for a delta candidate window.
pub const MAX_DELTA_WINDOW: usize = 256;

/// Hard ceiling for candidate comparisons in one plan.
pub const MAX_DELTA_CANDIDATE_COMPARISONS: u64 = 10_000_000;

/// Hard ceiling for generated delta depth.
pub const MAX_DELTA_DEPTH: u16 = 128;

/// Hard ceiling for candidate bytes in a planning window.
pub const MAX_DELTA_RETAINED_BASE_BYTES: u64 = 536_870_912;

/// Hard ceiling for one inflated or compressed instruction stream.
pub const MAX_GENERATED_DELTA_INSTRUCTION_BYTES: usize = 67_108_864;

/// Work budget consulted at deterministic checkpoints.
pub trait DeltaWorkBudget {
    /// A charge may be answered so.
    closed spec fn answers(units: u64, charged: bool) -> bool {
        true
    }

    /// Units left, where the budget counts them.
    closed spec fn allowance(&self) -> Option<nat> {
        None
    }

    /// Charge work units; `false` means that work must stop.
    fn charge(&mut self, units: u64) -> (charged: bool)
        ensures
            Self::answers(units, charged),
            spends(old(self).allowance(), final(self).allowance(), units, charged),
    ;
}

/// Counter-based work budget.
#[derive(Clone, Copy, Debug, PartialEq, Eq, Structural)]
pub struct DeltaWorkLimit {
    remaining: u64,
    checkpoints: u64,
}

impl DeltaWorkLimit {
    /// Units left.
    pub closed spec fn left(self) -> u64 {
        self.remaining
    }

    /// Charges seen.
    pub closed spec fn seen(self) -> u64 {
        self.checkpoints
    }

    /// Create an exact allowance.
    pub fn new(units: u64) -> (limit: Self)
        ensures
            limit.left() == units,
            limit.seen() == 0,
    {
        DeltaWorkLimit { remaining: units, checkpoints: 0 }
    }

    /// Return the units left.
    pub fn remaining(&self) -> (units: u64)
        ensures
            units == self.left(),
    {
        self.remaining
    }

    /// Return the number of charges seen.
    pub fn checkpoints(&self) -> (count: u64)
        ensures
            count == self.seen(),
    {
        self.checkpoints
    }
}

impl DeltaWorkBudget for DeltaWorkLimit {
    /// A charge of nothing is never refused.
    open spec fn answers(units: u64, charged: bool) -> bool {
        charged || units > 0
    }

    /// What is left.
    open spec fn allowance(&self) -> Option<nat> {
        Some(self.left() as nat)
    }

    fn charge(&mut self, units: u64) -> (charged: bool)
        ensures
            charged == (units <= old(self).left()),
            final(self).left() == if charged {
                (old(self).left() - units) as u64
            } else {
                old(self).left()
            },
            final(self).seen() == if old(self).seen() == u64::MAX {
                u64::MAX
            } else {
                (old(self).seen() + 1) as u64
            },
    {
        self.checkpoints = self.checkpoints.saturating_add(1);
        if units > self.remaining {
            return false;
        }
        self.remaining = self.remaining - units;
        true
    }
}

/// Bounds of delta planning.
#[derive(Clone, Copy, Debug, PartialEq, Eq, Structural)]
pub struct DeltaPackOptions {
    /// Maximum compatible earlier objects considered for one target, in the window of its kind.
    pub window: usize,
    /// Maximum candidate comparisons across the plan.
    pub max_candidate_comparisons: u64,
    /// Maximum delta chain depth.
    pub max_depth: u16,
    /// Maximum candidate base bytes over all active windows.
    pub max_retained_base_bytes: u64,
    /// Maximum inflated instruction bytes of one entry.
    pub max_instruction_bytes: usize,
    /// Maximum compressed instruction bytes of one entry.
    pub max_compressed_instruction_bytes: usize,
    /// Maximum path hint bytes used as a similarity signal.
    pub max_path_hint_bytes: usize,
    /// Minimum compressed-byte saving over a direct zlib stream.
    pub min_savings_bytes: u64,
    /// Numerator of the largest delta to direct size ratio.
    pub max_expansion_numerator: u32,
    /// Denominator of the largest delta to direct size ratio.
    pub max_expansion_denominator: u32,
    /// Negotiated representation capabilities.
    pub capabilities: PackReuseCapabilities,
}

/// Planning bounds that apply unless others are given.
pub open spec fn spec_default_options() -> DeltaPackOptions {
    DeltaPackOptions {
        window: 16,
        max_candidate_comparisons: 100_000,
        max_depth: 16,
        max_retained_base_bytes: 67_108_864,
        max_instruction_bytes: 8_388_608,
        max_compressed_instruction_bytes: 8_388_608,
        max_path_hint_bytes: 4_096,
        min_savings_bytes: 32,
        max_expansion_numerator: 7,
        max_expansion_denominator: 8,
        capabilities: PackReuseCapabilities { ofs_delta: false },
    }
}

impl Default for DeltaPackOptions {
    fn default() -> (options: Self)
        ensures
            options == spec_default_options(),
    {
        DeltaPackOptions {
            window: 16,
            max_candidate_comparisons: 100_000,
            max_depth: 16,
            max_retained_base_bytes: 67_108_864,
            max_instruction_bytes: 8_388_608,
            max_compressed_instruction_bytes: 8_388_608,
            max_path_hint_bytes: 4_096,
            min_savings_bytes: 32,
            max_expansion_numerator: 7,
            max_expansion_denominator: 8,
            capabilities: PackReuseCapabilities { ofs_delta: false },
        }
    }
}

/// Invalid planning configuration.
#[derive(Clone, Copy, Debug, PartialEq, Eq, Structural)]
pub enum DeltaPackOptionsError {
    /// A limit is zero, above a hard ceiling, or forms an invalid ratio; or an object's identity or
    /// stored representation is unusable.
    Invalid,
}

impl DeltaPackOptions {
    /// The bounds may be used.
    pub open spec fn valid(self) -> bool {
        &&& 0 < self.window <= MAX_DELTA_WINDOW
        &&& 0 < self.max_candidate_comparisons <= MAX_DELTA_CANDIDATE_COMPARISONS
        &&& 0 < self.max_depth <= MAX_DELTA_DEPTH
        &&& 0 < self.max_retained_base_bytes <= MAX_DELTA_RETAINED_BASE_BYTES
        &&& 0 < self.max_instruction_bytes <= MAX_GENERATED_DELTA_INSTRUCTION_BYTES
        &&& 0 < self.max_compressed_instruction_bytes <= MAX_GENERATED_DELTA_INSTRUCTION_BYTES
        &&& 0 < self.max_path_hint_bytes <= 65_536
        &&& 0 < self.max_expansion_numerator <= self.max_expansion_denominator
    }

    /// Validate all limits.
    pub fn validate(self) -> (result: Result<Self, DeltaPackOptionsError>)
        ensures
            result == if self.valid() {
                Ok::<Self, DeltaPackOptionsError>(self)
            } else {
                Err(DeltaPackOptionsError::Invalid)
            },
    {
        if self.window == 0 || self.window > MAX_DELTA_WINDOW || self.max_candidate_comparisons == 0
            || self.max_candidate_comparisons > MAX_DELTA_CANDIDATE_COMPARISONS || self.max_depth
            == 0 || self.max_depth > MAX_DELTA_DEPTH || self.max_retained_base_bytes == 0
            || self.max_retained_base_bytes > MAX_DELTA_RETAINED_BASE_BYTES
            || self.max_instruction_bytes == 0 || self.max_instruction_bytes
            > MAX_GENERATED_DELTA_INSTRUCTION_BYTES || self.max_compressed_instruction_bytes == 0
            || self.max_compressed_instruction_bytes > MAX_GENERATED_DELTA_INSTRUCTION_BYTES
            || self.max_path_hint_bytes == 0 || self.max_path_hint_bytes > 65_536
            || self.max_expansion_numerator == 0 || self.max_expansion_denominator == 0
            || self.max_expansion_numerator > self.max_expansion_denominator {
            return Err(DeltaPackOptionsError::Invalid);
        }
        Ok(self)
    }
}

/// The default bounds are valid.
pub proof fn law_default_options_are_valid()
    ensures
        spec_default_options().valid(),
{
}

/// One decoded outgoing object and its stored representation, if it has one.
#[derive(Debug)]
pub struct DeltaObjectInput {
    /// Object ID.
    pub oid: ObjectId,
    /// Decoded object.
    pub object: StoredObject,
    /// Path or name, as a similarity hint.
    pub path_hint: Option<String>,
    /// Stored compressed representation, preferred where its base is at hand.
    pub stored: Option<ValidatedPackEntry>,
}

/// Why an entry is direct.
#[derive(Clone, Copy, Debug, PartialEq, Eq, Structural)]
pub enum DeltaFallbackReason {
    /// No candidate is similar enough.
    NoCandidate,
    /// The work budget is exhausted.
    WorkBudget,
    /// The comparison limit is reached.
    ComparisonBudget,
    /// Retaining the base would exceed its bound.
    BaseBytes,
    /// The instructions exceed their bound.
    InstructionBytes,
    /// The chain would be too deep.
    Depth,
    /// The delta does not save enough.
    NotSmaller,
    /// Compression did not complete within its bound.
    Encoding,
}

/// Generated delta payload.
#[derive(Debug)]
pub struct GeneratedDeltaPlan {
    base: ObjectId,
    base_index: Option<usize>,
    result_kind: ObjectKind,
    result_size: u64,
    instruction_size: u64,
    compressed: Vec<u8>,
    depth: u16,
}

impl GeneratedDeltaPlan {
    /// The base object.
    pub closed spec fn spec_base(self) -> ObjectId {
        self.base
    }

    /// The place of the base in the plan.
    pub closed spec fn spec_base_index(self) -> Option<usize> {
        self.base_index
    }

    /// The kind of the result.
    pub closed spec fn spec_result_kind(self) -> ObjectKind {
        self.result_kind
    }

    /// The size of the result.
    pub closed spec fn spec_result_size(self) -> u64 {
        self.result_size
    }

    /// The size of the instructions.
    pub closed spec fn spec_instruction_size(self) -> u64 {
        self.instruction_size
    }

    /// The compressed instructions.
    pub closed spec fn spec_compressed(self) -> Seq<u8> {
        self.compressed@
    }

    /// The depth of the delta chain.
    pub closed spec fn spec_depth(self) -> u16 {
        self.depth
    }
}

/// What is done for one object.
#[derive(Debug)]
pub enum DeltaEntryAction {
    /// Reuse the stored representation; execution compresses directly if its base is not at hand.
    Reuse(ValidatedPackEntry),
    /// Emit generated instructions.
    Generated(GeneratedDeltaPlan),
    /// Compress directly.
    Direct(DeltaFallbackReason),
}

/// Planned object.
#[derive(Debug)]
pub struct DeltaPlannedEntry {
    /// Object ID.
    pub oid: ObjectId,
    /// Decoded object.
    pub object: StoredObject,
    /// Similarity hint, where it is not too long.
    pub path_hint: Option<String>,
    /// Selected action.
    pub action: DeltaEntryAction,
}

/// Planning counters.
#[derive(Clone, Copy, Debug, PartialEq, Eq, Structural)]
pub struct DeltaPlanningReport {
    /// Candidates inspected.
    pub candidate_comparisons: u64,
    /// Stored entries selected.
    pub reused_entries: u64,
    /// Deltas generated.
    pub generated_entries: u64,
    /// Direct entries.
    pub direct_entries: u64,
    /// Most candidate bytes in the window.
    pub peak_retained_base_bytes: u64,
    /// Whether the work budget stopped delta work.
    pub work_exhausted: bool,
}

/// Counters of an empty plan.
pub open spec fn empty_planning_report() -> DeltaPlanningReport {
    DeltaPlanningReport {
        candidate_comparisons: 0,
        reused_entries: 0,
        generated_entries: 0,
        direct_entries: 0,
        peak_retained_base_bytes: 0,
        work_exhausted: false,
    }
}

impl Default for DeltaPlanningReport {
    fn default() -> (report: Self)
        ensures
            report == empty_planning_report(),
    {
        DeltaPlanningReport {
            candidate_comparisons: 0,
            reused_entries: 0,
            generated_entries: 0,
            direct_entries: 0,
            peak_retained_base_bytes: 0,
            work_exhausted: false,
        }
    }
}

/// One byte of a number, counted from the least significant.
pub open spec fn byte_of(value: int, scale: int) -> int {
    (value / scale) % 256
}

/// A byte that is spelled only where it is not zero.
#[verifier::opaque]
pub open spec fn spelled(byte: int) -> Seq<u8> {
    if byte == 0 {
        Seq::empty()
    } else {
        seq![byte as u8]
    }
}

/// One where a byte is spelled.
pub open spec fn mark(byte: int) -> int {
    if byte == 0 {
        0
    } else {
        1
    }
}

/// The copy opcode of a range.
pub open spec fn copy_opcode(offset: int, size: int) -> int {
    128 + mark(byte_of(offset, 1)) + 2 * mark(byte_of(offset, 256)) + 4 * mark(
        byte_of(offset, 65_536),
    ) + 8 * mark(byte_of(offset, 16_777_216)) + 16 * mark(byte_of(size, 1)) + 32 * mark(
        byte_of(size, 256),
    )
}

/// The copy instruction of a range of at most 65536 bytes.
pub open spec fn copy_code(offset: int, size: int) -> Seq<u8> {
    seq![copy_opcode(offset, size) as u8] + spelled(byte_of(offset, 1)) + spelled(
        byte_of(offset, 256),
    ) + spelled(byte_of(offset, 65_536)) + spelled(byte_of(offset, 16_777_216)) + spelled(
        byte_of(size, 1),
    ) + spelled(byte_of(size, 256))
}

/// Copy instructions of a range, each of at most 65536 bytes.
pub open spec fn copies(offset: int, size: int) -> Seq<u8>
    decreases size,
{
    if size <= 0 {
        Seq::empty()
    } else {
        let chunk = if size < 65_536 {
            size
        } else {
            65_536
        };
        copy_code(offset, chunk) + copies(offset + chunk, size - chunk)
    }
}

/// Literal instructions of bytes, each of at most 127.
pub open spec fn literals(bytes: Seq<u8>) -> Seq<u8>
    decreases bytes.len(),
{
    if bytes.len() == 0 {
        Seq::empty()
    } else {
        let chunk = if bytes.len() < 127 {
            bytes.len() as int
        } else {
            127
        };
        seq![chunk as u8] + bytes.take(chunk) + literals(bytes.skip(chunk))
    }
}

/// The delta that copies the first `prefix` bytes of the base and spells the rest of the target.
pub open spec fn prefix_delta(base_len: nat, target: Seq<u8>, prefix: int) -> Seq<u8> {
    varint(base_len) + varint(target.len()) + copies(0, prefix) + literals(target.skip(prefix))
}

/// The instruction starts with its opcode, whose flags are the marks.
proof fn lemma_opcode(a: int, b: int, c: int, d: int, e: int, f: int)
    requires
        0 <= a <= 1,
        0 <= b <= 1,
        0 <= c <= 1,
        0 <= d <= 1,
        0 <= e <= 1,
        0 <= f <= 1,
    ensures
        ({
            let op = (128 + a + 2 * b + 4 * c + 8 * d + 16 * e + 32 * f) as u8;
            &&& op == 128 + a + 2 * b + 4 * c + 8 * d + 16 * e + 32 * f
            &&& flag(op, 1) == a
            &&& flag(op, 2) == b
            &&& flag(op, 4) == c
            &&& flag(op, 8) == d
            &&& flag(op, 16) == e
            &&& flag(op, 32) == f
            &&& flag(op, 64) == 0
        }),
{
    reveal(flag);
}

/// The instruction whose argument bytes are these.
spec fn copy_layout(o0: int, o1: int, o2: int, o3: int, s0: int, s1: int) -> Seq<u8> {
    seq![
        (128 + mark(o0) + 2 * mark(o1) + 4 * mark(o2) + 8 * mark(o3) + 16 * mark(s0) + 32 * mark(
            s1,
        )) as u8,
    ] + spelled(o0) + spelled(o1) + spelled(o2) + spelled(o3) + spelled(s0) + spelled(s1)
}

/// A spelled byte takes one place or none.
proof fn lemma_spelled(byte: int)
    ensures
        spelled(byte).len() == mark(byte),
{
    reveal(spelled);
}

/// An argument byte stands behind what comes before it.
proof fn lemma_argument(
    code: Seq<u8>,
    at: int,
    part: Seq<u8>,
    front: Seq<u8>,
    byte: int,
    rest: Seq<u8>,
)
    requires
        0 <= at,
        0 <= byte < 256,
        at + part.len() <= code.len(),
        code.subrange(at, at + part.len()) == part,
        part == front + spelled(byte) + rest,
    ensures
        byte != 0 ==> code[at + front.len()] == byte,
{
    reveal(spelled);
    if byte != 0 {
        assert(part[front.len() as int] == byte as u8);
        assert(code.subrange(at, at + part.len())[front.len() as int] == byte as u8);
    }
}

/// Argument bytes read back from where they stand.
proof fn lemma_layout_reads(
    code: Seq<u8>,
    at: int,
    o0: int,
    o1: int,
    o2: int,
    o3: int,
    s0: int,
    s1: int,
)
    requires
        0 <= at,
        0 <= o0 < 256,
        0 <= o1 < 256,
        0 <= o2 < 256,
        0 <= o3 < 256,
        0 <= s0 < 256,
        0 <= s1 < 256,
        at + copy_layout(o0, o1, o2, o3, s0, s1).len() <= code.len(),
        code.subrange(at, at + copy_layout(o0, o1, o2, o3, s0, s1).len()) == copy_layout(
            o0,
            o1,
            o2,
            o3,
            s0,
            s1,
        ),
    ensures
        code[at] >= 128,
        copy_layout(o0, o1, o2, o3, s0, s1).len() == 1 + copy_args(code[at]),
        copy_offset(code, at) == o0 + 256 * o1 + 65_536 * o2 + 16_777_216 * o3,
        copy_size(code, at) == if s0 + 256 * s1 == 0 {
            65_536
        } else {
            s0 + 256 * s1
        },
{
    lemma_opcode(mark(o0), mark(o1), mark(o2), mark(o3), mark(s0), mark(s1));
    let part = copy_layout(o0, o1, o2, o3, s0, s1);
    assert(code[at] == code.subrange(at, at + part.len())[0]);
    lemma_spelled(o0);
    lemma_spelled(o1);
    lemma_spelled(o2);
    lemma_spelled(o3);
    lemma_spelled(s0);
    lemma_spelled(s1);
    let none = Seq::<u8>::empty();
    let f0 = seq![
        (128 + mark(o0) + 2 * mark(o1) + 4 * mark(o2) + 8 * mark(o3) + 16 * mark(s0) + 32 * mark(
            s1,
        )) as u8,
    ];
    let f1 = f0 + spelled(o0);
    let f2 = f1 + spelled(o1);
    let f3 = f2 + spelled(o2);
    let f4 = f3 + spelled(o3);
    let f5 = f4 + spelled(s0);
    let r5 = spelled(s1);
    let r4 = spelled(s0) + r5;
    let r3 = spelled(o3) + r4;
    let r2 = spelled(o2) + r3;
    let r1 = spelled(o1) + r2;
    assert(part =~= f0 + spelled(o0) + r1);
    lemma_argument(code, at, part, f0, o0, r1);
    assert(part =~= f1 + spelled(o1) + r2);
    lemma_argument(code, at, part, f1, o1, r2);
    assert(part =~= f2 + spelled(o2) + r3);
    lemma_argument(code, at, part, f2, o2, r3);
    assert(part =~= f3 + spelled(o3) + r4);
    lemma_argument(code, at, part, f3, o3, r4);
    assert(part =~= f4 + spelled(s0) + r5);
    lemma_argument(code, at, part, f4, s0, r5);
    assert(part =~= f5 + spelled(s1) + none);
    lemma_argument(code, at, part, f5, s1, none);
}

/// The bytes of a range add up to it.
proof fn lemma_range_bytes(offset: int, size: int)
    requires
        0 <= offset <= 0xffff_ffff,
        0 < size <= 65_536,
    ensures
        byte_of(offset, 1) + 256 * byte_of(offset, 256) + 65_536 * byte_of(offset, 65_536)
            + 16_777_216 * byte_of(offset, 16_777_216) == offset,
        byte_of(size, 1) + 256 * byte_of(size, 256) == if size == 65_536 {
            0
        } else {
            size
        },
        0 <= byte_of(offset, 1) < 256,
        0 <= byte_of(offset, 256) < 256,
        0 <= byte_of(offset, 65_536) < 256,
        0 <= byte_of(offset, 16_777_216) < 256,
        0 <= byte_of(size, 1) < 256,
        0 <= byte_of(size, 256) < 256,
{
    let q = offset / 256;
    let p = q / 256;
    vstd::arithmetic::div_mod::lemma_div_denominator(offset, 256, 256);
    vstd::arithmetic::div_mod::lemma_div_denominator(offset, 65_536, 256);
    assert(offset == 256 * q + offset % 256);
    assert(q == 256 * p + q % 256);
    assert(p == 256 * (p / 256) + p % 256);
    assert(p / 256 < 256);
}

/// A copy instruction reads back as its range.
pub proof fn law_copy_code_reads_back(code: Seq<u8>, at: int, offset: int, size: int)
    requires
        0 <= offset <= 0xffff_ffff,
        0 < size <= 65_536,
        0 <= at,
        at + copy_code(offset, size).len() <= code.len(),
        code.subrange(at, at + copy_code(offset, size).len()) == copy_code(offset, size),
    ensures
        code[at] >= 128,
        copy_code(offset, size).len() == 1 + copy_args(code[at]),
        copy_offset(code, at) == offset,
        copy_size(code, at) == size,
{
    lemma_range_bytes(offset, size);
    lemma_layout_reads(
        code,
        at,
        byte_of(offset, 1),
        byte_of(offset, 256),
        byte_of(offset, 65_536),
        byte_of(offset, 16_777_216),
        byte_of(size, 1),
        byte_of(size, 256),
    );
}

/// Literal instructions make their bytes.
proof fn lemma_literals_apply(base: Seq<u8>, code: Seq<u8>, at: int, bytes: Seq<u8>)
    requires
        0 <= at <= code.len(),
        code.skip(at) == literals(bytes),
    ensures
        delta_apply(base, code, at) == Some(bytes),
    decreases bytes.len(),
{
    let rest = code.skip(at);
    if bytes.len() == 0 {
        assert(rest.len() == 0);
        assert(bytes =~= Seq::<u8>::empty());
    } else {
        let chunk = if bytes.len() < 127 {
            bytes.len() as int
        } else {
            127
        };
        let tail = literals(bytes.skip(chunk));
        let end = at + 1 + chunk;
        assert(rest =~= seq![chunk as u8] + bytes.take(chunk) + tail);
        assert(rest.len() == 1 + chunk + tail.len());
        assert(rest[0] == chunk as u8);
        assert(code[at] == rest[0]);
        assert(code.skip(end) =~= tail) by {
            assert forall|i: int| 0 <= i < tail.len() implies code.skip(end)[i] == tail[i] by {
                assert(rest[1 + chunk + i] == tail[i]);
            }
        }
        assert(code.subrange(at + 1, end) =~= bytes.take(chunk)) by {
            assert forall|i: int| 0 <= i < chunk implies code[at + 1 + i] == bytes[i] by {
                assert(rest[1 + i] == bytes.take(chunk)[i]);
            }
        }
        lemma_literals_apply(base, code, end, bytes.skip(chunk));
        assert(bytes.take(chunk) + bytes.skip(chunk) =~= bytes);
    }
}

/// Copy instructions make their range, before what follows.
proof fn lemma_copies_apply(
    base: Seq<u8>,
    code: Seq<u8>,
    at: int,
    offset: int,
    size: int,
    bytes: Seq<u8>,
)
    requires
        0 <= at <= code.len(),
        0 <= offset,
        0 <= size,
        offset + size <= base.len(),
        offset + size <= 0x1_0000_0000,
        code.skip(at) == copies(offset, size) + literals(bytes),
    ensures
        delta_apply(base, code, at) == Some(base.subrange(offset, offset + size) + bytes),
    decreases size,
{
    if size == 0 {
        assert(code.skip(at) =~= literals(bytes));
        lemma_literals_apply(base, code, at, bytes);
        assert(base.subrange(offset, offset) + bytes =~= bytes);
    } else {
        let chunk = if size < 65_536 {
            size
        } else {
            65_536
        };
        let part = copy_code(offset, chunk);
        let more = copies(offset + chunk, size - chunk) + literals(bytes);
        let rest = code.skip(at);
        assert(rest =~= part + more);
        let end = at + part.len();
        assert(code.subrange(at, end) =~= part) by {
            assert forall|i: int| 0 <= i < part.len() implies code[at + i] == part[i] by {
                assert(rest[i] == part[i]);
            }
        }
        assert(code.skip(end) =~= more) by {
            assert forall|i: int| 0 <= i < more.len() implies code.skip(end)[i] == more[i] by {
                assert(rest[part.len() + i] == more[i]);
            }
        }
        law_copy_code_reads_back(code, at, offset, chunk);
        lemma_flags(code[at]);
        lemma_copies_apply(base, code, end, offset + chunk, size - chunk, bytes);
        assert(base.subrange(offset, offset + chunk) + (base.subrange(
            offset + chunk,
            offset + size,
        ) + bytes) =~= base.subrange(offset, offset + size) + bytes);
    }
}

/// A number's digits add up to it.
proof fn lemma_varint_value(bytes: Seq<u8>, at: int, value: nat)
    requires
        0 <= at,
        at + varint(value).len() <= bytes.len(),
        bytes.subrange(at, at + varint(value).len()) == varint(value),
    ensures
        digits_value(bytes, at, varint(value).len()) == value,
    decreases value,
{
    let part = varint(value);
    assert(bytes[at] == bytes.subrange(at, at + part.len())[0]);
    if value < 128 {
        reveal_with_fuel(digits_value, 2);
    } else {
        let rest = varint(value / 128);
        assert(part.len() == 1 + rest.len());
        assert(bytes.subrange(at + 1, at + 1 + rest.len()) =~= rest) by {
            assert forall|i: int| 0 <= i < rest.len() implies bytes[at + 1 + i] == rest[i] by {
                assert(bytes.subrange(at, at + part.len())[i + 1] == part[i + 1]);
            }
        }
        lemma_varint_value(bytes, at + 1, value / 128);
    }
}

/// A shortest encoding reads as a delta header size.
proof fn lemma_varint_reads(bytes: Seq<u8>, at: int, value: u64)
    requires
        0 <= at,
        at + varint(value as nat).len() <= bytes.len(),
        bytes.subrange(at, at + varint(value as nat).len()) == varint(value as nat),
    ensures
        reads_size(bytes, at, value, at + varint(value as nat).len()),
{
    let part = varint(value as nat);
    lemma_varint_shape(value as nat);
    lemma_pow128_values();
    lemma_varint_len(value as nat, 10);
    lemma_varint_value(bytes, at, value as nat);
    assert forall|i: int| at <= i < at + part.len() implies bytes[i] == part[i - at] by {
        assert(bytes.subrange(at, at + part.len())[i - at] == part[i - at]);
    }
    assert(size_ends(bytes, at, part.len()));
    assert(value as int % two64() == value);
}

/// A prefix delta has the sizes of its base and its target, and applied to any base that shares
/// the prefix makes the target.
pub proof fn law_prefix_delta_makes_target(base: Seq<u8>, target: Seq<u8>, prefix: int)
    requires
        0 <= prefix <= base.len(),
        prefix <= target.len(),
        prefix <= 0x1_0000_0000,
        base.len() <= u64::MAX,
        target.len() <= u64::MAX,
        base.take(prefix) == target.take(prefix),
    ensures
        ({
            let delta = prefix_delta(base.len(), target, prefix);
            let body = (varint(base.len()) + varint(target.len())).len() as int;
            &&& delta_header(delta, base.len() as u64, target.len() as u64, body)
            &&& delta_apply(base, delta, body) == Some(target)
            &&& delta_valid(delta, base.len() as u64, target.len() as u64)
        }),
{
    let delta = prefix_delta(base.len(), target, prefix);
    let one = varint(base.len());
    let two = varint(target.len());
    let tail = copies(0, prefix) + literals(target.skip(prefix));
    let body = (one + two).len() as int;
    assert(delta =~= one + two + tail);
    assert(delta.subrange(0, one.len() as int) =~= one);
    assert(delta.subrange(one.len() as int, body) =~= two);
    lemma_varint_reads(delta, 0, base.len() as u64);
    lemma_varint_reads(delta, one.len() as int, target.len() as u64);
    assert(delta.skip(body) =~= tail);
    lemma_copies_apply(base, delta, body, 0, prefix, target.skip(prefix));
    assert(base.subrange(0, prefix) =~= base.take(prefix));
    assert(target.take(prefix) + target.skip(prefix) =~= target);
    law_scan_measures_apply(base, delta, body, 0);
    assert(delta_header(delta, base.len() as u64, target.len() as u64, body));
    assert(delta_scan(base.len() as int, delta, body, 0) == DeltaScan::Made(target.len() as u64));
}

/// Most instruction bytes that a prefix delta can take.
pub open spec fn delta_estimate(prefix: int, suffix: int) -> int {
    suffix + (prefix + 65_535) / 65_536 * 7 + (suffix + 126) / 127 + 20
}

/// The length of a copy instruction.
proof fn lemma_copy_code_len(offset: int, size: int)
    ensures
        copy_code(offset, size).len() == 1 + mark(byte_of(offset, 1)) + mark(byte_of(offset, 256))
            + mark(byte_of(offset, 65_536)) + mark(byte_of(offset, 16_777_216)) + mark(
            byte_of(size, 1),
        ) + mark(byte_of(size, 256)),
        1 <= copy_code(offset, size).len() <= 7,
{
    lemma_spelled(byte_of(offset, 1));
    lemma_spelled(byte_of(offset, 256));
    lemma_spelled(byte_of(offset, 65_536));
    lemma_spelled(byte_of(offset, 16_777_216));
    lemma_spelled(byte_of(size, 1));
    lemma_spelled(byte_of(size, 256));
}

/// Copy instructions take at most seven bytes each.
proof fn lemma_copies_len(offset: int, size: int)
    requires
        0 <= size,
    ensures
        copies(offset, size).len() <= (size + 65_535) / 65_536 * 7,
    decreases size,
{
    if size > 0 {
        let chunk = if size < 65_536 {
            size
        } else {
            65_536
        };
        lemma_copy_code_len(offset, chunk);
        lemma_copies_len(offset + chunk, size - chunk);
        if size > 65_536 {
            assert((size - 65_536 + 65_535) / 65_536 == (size + 65_535) / 65_536 - 1);
        } else {
            assert((size - chunk + 65_535) / 65_536 == 0);
            assert((size + 65_535) / 65_536 == 1);
        }
    }
}

/// Literal instructions take one byte more than what they spell.
proof fn lemma_literals_len(bytes: Seq<u8>)
    ensures
        literals(bytes).len() == bytes.len() + (bytes.len() + 126) / 127,
    decreases bytes.len(),
{
    if bytes.len() > 0 {
        let chunk = if bytes.len() < 127 {
            bytes.len() as int
        } else {
            127
        };
        lemma_literals_len(bytes.skip(chunk));
        if bytes.len() > 127 {
            assert((bytes.len() - 127 + 126) / 127 == (bytes.len() + 126) / 127 - 1);
        } else {
            assert((bytes.len() - chunk + 126) / 127 == 0);
            assert((bytes.len() + 126) / 127 == 1);
        }
    }
}

/// A prefix delta keeps within its estimate.
pub proof fn law_prefix_delta_fits_estimate(base_len: u64, target: Seq<u8>, prefix: int)
    requires
        0 <= prefix <= target.len(),
        target.len() <= u64::MAX,
    ensures
        prefix_delta(base_len as nat, target, prefix).len() <= delta_estimate(
            prefix,
            target.len() - prefix,
        ),
{
    lemma_pow128_values();
    lemma_varint_len(base_len as nat, 10);
    lemma_varint_len(target.len(), 10);
    lemma_copies_len(0, prefix);
    lemma_literals_len(target.skip(prefix));
}

/// Append one byte within a bound.
fn push_byte(output: &mut Vec<u8>, byte: u8, maximum: usize) -> (pushed: Option<()>)
    ensures
        pushed is Some <==> old(output)@.len() < maximum,
        final(output)@ == if pushed is Some {
            old(output)@.push(byte)
        } else {
            old(output)@
        },
{
    if output.len() >= maximum {
        return None;
    }
    output.push(byte);
    Some(())
}

/// Append bytes within a bound.
fn push_slice(output: &mut Vec<u8>, bytes: &[u8], maximum: usize) -> (pushed: Option<()>)
    ensures
        pushed is Some <==> old(output)@.len() + bytes@.len() <= maximum,
        final(output)@ == if pushed is Some {
            old(output)@ + bytes@
        } else {
            old(output)@
        },
{
    if output.len() > maximum || bytes.len() > maximum - output.len() {
        return None;
    }
    append_bytes(output, bytes);
    Some(())
}

/// Append a delta header size within a bound.
fn push_varint(output: &mut Vec<u8>, value: usize, maximum: usize) -> (pushed: Option<()>)
    ensures
        pushed is Some <==> old(output)@.len() + varint(value as nat).len() <= maximum,
        pushed is Some ==> final(output)@ == old(output)@ + varint(value as nat),
{
    let ghost before = output@;
    let mut rest: usize = value;
    while rest >= 128
        invariant
            before == old(output)@,
            before + varint(value as nat) == output@ + varint(rest as nat),
        decreases rest,
    {
        let ghost prior = output@;
        let ghost prior_rest = rest;
        let pushed = push_byte(output, (128 + rest % 128) as u8, maximum);
        proof {
            lemma_varint_shape(prior_rest as nat);
            assert((before + varint(value as nat)).len() == prior.len() + varint(
                prior_rest as nat,
            ).len());
        }
        if pushed.is_none() {
            return None;
        }
        rest = rest / 128;
        proof {
            assert(prior + varint(prior_rest as nat) =~= output@ + varint(rest as nat));
        }
    }
    proof {
        assert((before + varint(value as nat)).len() == output@.len() + 1);
    }
    let ghost prior = output@;
    let pushed = push_byte(output, rest as u8, maximum);
    proof {
        if pushed is Some {
            assert(output@ =~= prior + varint(rest as nat));
        }
    }
    pushed
}

/// Append one byte of a number where it is not zero.
fn push_spelled(output: &mut Vec<u8>, byte: u8, maximum: usize) -> (pushed: Option<()>)
    ensures
        pushed is Some <==> byte == 0 || old(output)@.len() < maximum,
        pushed is Some ==> final(output)@ == old(output)@ + spelled(byte as int),
{
    reveal(spelled);
    if byte == 0 {
        assert(output@ + spelled(0) =~= output@);
        return Some(());
    }
    let ghost before = output@;
    let pushed = push_byte(output, byte, maximum);
    proof {
        if pushed is Some {
            assert(output@ =~= before + spelled(byte as int));
        }
    }
    pushed
}

/// Return one where a byte is spelled.
fn mark_of(byte: u8) -> (set: u8)
    ensures
        set == mark(byte as int),
        set <= 1,
{
    if byte == 0 {
        0
    } else {
        1
    }
}

/// Append one copy instruction.
fn push_copy_range(
    output: &mut Vec<u8>,
    offset: u64,
    size: u64,
    maximum: usize,
) -> (pushed: Option<()>)
    requires
        offset <= 0xffff_ffff,
        0 < size <= 65_536,
        old(output)@.len() + copy_code(offset as int, size as int).len() <= maximum,
    ensures
        pushed is Some,
        final(output)@ == old(output)@ + copy_code(offset as int, size as int),
{
    let ghost before = output@;
    let o0: u8 = (offset % 256) as u8;
    let o1: u8 = (offset / 256 % 256) as u8;
    let o2: u8 = (offset / 65_536 % 256) as u8;
    let o3: u8 = (offset / 16_777_216 % 256) as u8;
    let s0: u8 = (size % 256) as u8;
    let s1: u8 = (size / 256 % 256) as u8;
    let opcode: u8 = 128 + mark_of(o0) + 2 * mark_of(o1) + 4 * mark_of(o2) + 8 * mark_of(o3) + 16
        * mark_of(s0) + 32 * mark_of(s1);
    assert(opcode as int == copy_opcode(offset as int, size as int));
    proof {
        lemma_copy_code_len(offset as int, size as int);
        lemma_spelled(o0 as int);
        lemma_spelled(o1 as int);
        lemma_spelled(o2 as int);
        lemma_spelled(o3 as int);
        lemma_spelled(s0 as int);
        lemma_spelled(s1 as int);
    }
    push_byte(output, opcode, maximum)?;
    push_spelled(output, o0, maximum)?;
    push_spelled(output, o1, maximum)?;
    push_spelled(output, o2, maximum)?;
    push_spelled(output, o3, maximum)?;
    push_spelled(output, s0, maximum)?;
    push_spelled(output, s1, maximum)?;
    assert(output@ =~= before + copy_code(offset as int, size as int));
    Some(())
}

/// Append copy instructions of the first `size` bytes of a base.
///
/// Ranges that start above the largest 32-bit offset cannot be spelled.
fn push_copy(output: &mut Vec<u8>, size: usize, maximum: usize) -> (pushed: Option<()>)
    requires
        old(output)@.len() + copies(0, size as int).len() <= maximum,
    ensures
        pushed is Some <==> size <= 0x1_0000_0000,
        pushed is Some ==> final(output)@ == old(output)@ + copies(0, size as int),
{
    let ghost before = output@;
    let total: u64 = size as u64;
    let mut offset: u64 = 0;
    while offset < total
        invariant
            offset <= total,
            total == size,
            offset < total ==> offset % 65_536 == 0,
            offset <= 0x1_0000_0000,
            before + copies(0, size as int) == output@ + copies(
                offset as int,
                total - offset,
            ),
            before.len() + copies(0, size as int).len() <= maximum,
        decreases total - offset,
    {
        if offset > 0xffff_ffff {
            return None;
        }
        let rest: u64 = total - offset;
        let chunk: u64 = if rest < 65_536 {
            rest
        } else {
            65_536
        };
        let ghost prior = output@;
        let ghost more = copies(offset + chunk, total - offset - chunk);
        proof {
            assert((before + copies(0, size as int)).len() == (prior + copies(
                offset as int,
                total - offset,
            )).len());
            assert(copies(offset as int, total - offset) == copy_code(offset as int, chunk as int)
                + more);
        }
        push_copy_range(output, offset, chunk, maximum)?;
        proof {
            assert(prior + (copy_code(offset as int, chunk as int) + more) =~= output@ + more);
        }
        offset = offset + chunk;
    }
    assert(output@ + copies(offset as int, 0) =~= output@);
    Some(())
}

/// Append literal instructions.
fn push_literals(output: &mut Vec<u8>, bytes: &[u8], maximum: usize) -> (pushed: Option<()>)
    requires
        old(output)@.len() + literals(bytes@).len() <= maximum,
    ensures
        pushed is Some,
        final(output)@ == old(output)@ + literals(bytes@),
{
    let ghost before = output@;
    let mut at: usize = 0;
    assert(bytes@.skip(0) =~= bytes@);
    while at < bytes.len()
        invariant
            at <= bytes@.len(),
            before + literals(bytes@) == output@ + literals(bytes@.skip(at as int)),
            before.len() + literals(bytes@).len() <= maximum,
        decreases bytes.len() - at,
    {
        let rest: usize = bytes.len() - at;
        let chunk: usize = if rest < 127 {
            rest
        } else {
            127
        };
        let ghost prior = output@;
        let ghost tail = bytes@.skip(at as int);
        let part: Vec<u8> = copy_range(bytes, at, at + chunk);
        proof {
            assert(part@ =~= tail.take(chunk as int));
            assert(tail.skip(chunk as int) =~= bytes@.skip(at + chunk));
            assert((before + literals(bytes@)).len() == (prior + literals(tail)).len());
        }
        push_byte(output, chunk as u8, maximum)?;
        push_slice(output, part.as_slice(), maximum)?;
        proof {
            assert(prior + literals(tail) =~= output@ + literals(bytes@.skip(at + chunk)));
        }
        at = at + chunk;
    }
    assert(bytes@.skip(at as int) =~= Seq::<u8>::empty());
    assert(output@ + literals(Seq::<u8>::empty()) =~= output@);
    Some(())
}

/// Encode the delta that copies a common prefix and spells the rest.
pub fn encode_lcp_delta_bounded(
    base: &[u8],
    target: &[u8],
    prefix: usize,
    maximum: usize,
) -> (delta: Option<Vec<u8>>)
    ensures
        delta is Some <==> prefix <= target@.len() && prefix <= 0x1_0000_0000 && delta_estimate(
            prefix as int,
            target@.len() - prefix,
        ) <= maximum,
        delta is Some ==> delta->0@ == prefix_delta(base@.len(), target@, prefix as int),
{
    if prefix > target.len() {
        return None;
    }
    let suffix: Vec<u8> = copy_range(target, prefix, target.len());
    assert(suffix@ =~= target@.skip(prefix as int));
    let copy_overhead: u128 = ((prefix as u128 + 65_535) / 65_536) * 7;
    let literal_overhead: u128 = (suffix.len() as u128 + 126) / 127;
    let estimate: u128 = suffix.len() as u128 + copy_overhead + literal_overhead + 20;
    if estimate > maximum as u128 {
        return None;
    }
    let base_len: usize = base.len();
    let target_len: usize = target.len();
    proof {
        law_prefix_delta_fits_estimate(base_len as u64, target@, prefix as int);
    }
    let mut output: Vec<u8> = Vec::new();
    push_varint(&mut output, base_len, maximum)?;
    push_varint(&mut output, target_len, maximum)?;
    push_copy(&mut output, prefix, maximum)?;
    push_literals(&mut output, suffix.as_slice(), maximum)?;
    assert(output@ =~= prefix_delta(base@.len(), target@, prefix as int));
    Some(output)
}

/// Some zlib stream of this length decodes to the data.
pub open spec fn compresses_to(data: Seq<u8>, length: int) -> bool {
    exists|stream: Seq<u8>| stream.len() == length && #[trigger] zlib_decoded(stream) == Some(data)
}

/// Room that a compressor is given at a time.
pub const SCRATCH_BYTES: usize = 32_768;

/// A compressor that has taken some front of the data within the bound fails on the rest, goes
/// beyond the bound, ends before all of it is taken, or makes no progress.
pub open spec fn compression_exceeds(data: Seq<u8>, maximum: int) -> bool {
    exists|encoder: flate2::Compress| #[trigger]
        deflate_input(encoder).is_prefix_of(data) && deflate_output(encoder).len() <= maximum
            && step_exceeds(encoder, data, maximum)
}

/// The next call of this compressor, on all that remains, ends a bounded compression unfinished.
pub open spec fn step_exceeds(encoder: flate2::Compress, data: Seq<u8>, maximum: int) -> bool {
    let at = deflate_input(encoder).len();
    match deflate_outcome(encoder, data.skip(at as int), SCRATCH_BYTES as nat, true) {
        None => true,
        Some((status, consumed, produced)) => {
            ||| deflate_output(encoder).len() + produced > maximum
            ||| status == ZlibStatus::Ended && at + consumed != data.len()
            ||| status != ZlibStatus::Ended && consumed == 0 && produced == 0
        },
    }
}

/// Compress within a bound.
///
/// Without `retain` only the length of the result is meaningful.
pub fn compress_bounded(input: &[u8], maximum: usize, retain: bool) -> (output: Option<Vec<u8>>)
    ensures
        output is Some ==> {
            &&& output->0@.len() <= maximum
            &&& compresses_to(input@, output->0@.len() as int)
            &&& retain ==> zlib_decoded(output->0@) == Some(input@)
        },
        output is None ==> compression_exceeds(input@, maximum as int),
{
    let mut compressor = compress_new();
    let mut scratch: Vec<u8> = zeroed(SCRATCH_BYTES);
    let mut output: Vec<u8> = Vec::new();
    let mut input_offset: usize = 0;
    assert(input@.take(0) =~= Seq::<u8>::empty());
    loop
        invariant
            input_offset <= input@.len(),
            output@.len() <= maximum,
            output@.len() == deflate_output(compressor).len(),
            retain ==> output@ == deflate_output(compressor),
            deflate_input(compressor) == input@.take(input_offset as int),
            scratch@.len() == SCRATCH_BYTES,
        decreases (input.len() - input_offset) + (maximum - output.len()),
    {
        let before_in: u64 = compress_total_in(&compressor);
        let before_out: u64 = compress_total_out(&compressor);
        let ghost before = compressor;
        let ghost prior_in = deflate_input(compressor);
        let rest: Vec<u8> = copy_range(input, input_offset, input.len());
        proof {
            assert(prior_in.is_prefix_of(input@));
            assert(rest@ =~= input@.skip(prior_in.len() as int));
        }
        let status = match compress_step(&mut compressor, rest.as_slice(), &mut scratch, true) {
            Ok(status) => status,
            Err(_) => {
                assert(step_exceeds(before, input@, maximum as int));
                return None;
            },
        };
        let consumed: usize = counted(&rest, compress_total_in(&compressor) - before_in);
        let produced: usize = counted(&scratch, compress_total_out(&compressor) - before_out);
        proof {
            assert(prior_in + rest@.take(consumed as int) =~= input@.take(input_offset + consumed));
        }
        input_offset = input_offset + consumed;
        if produced > maximum - output.len() {
            assert(step_exceeds(before, input@, maximum as int));
            return None;
        }
        if retain {
            let chunk: Vec<u8> = copy_range(scratch.as_slice(), 0, produced);
            assert(chunk@ =~= scratch@.take(produced as int));
            append_bytes(&mut output, chunk.as_slice());
        } else {
            let length: usize = output.len() + produced;
            output.resize(length, 0);
        }
        if status == ZlibStatus::Ended {
            if input_offset == input.len() {
                proof {
                    assert(input@.take(input_offset as int) =~= input@);
                    assert(zlib_decoded(deflate_output(compressor)) == Some(input@));
                }
                return Some(output);
            }
            assert(step_exceeds(before, input@, maximum as int));
            return None;
        }
        if consumed == 0 && produced == 0 {
            assert(step_exceeds(before, input@, maximum as int));
            return None;
        }
    }
}

/// The number of bytes in front of a buffer that a call has used.
fn counted(buffer: &Vec<u8>, used: u64) -> (count: usize)
    requires
        used <= buffer@.len(),
    ensures
        count == used,
{
    let capacity: usize = buffer.len();
    if used > capacity as u64 {
        capacity
    } else {
        used as usize
    }
}

/// How many leading bytes two sequences share, from `at` on.
pub open spec fn shared_from(left: Seq<u8>, right: Seq<u8>, at: int) -> int
    decreases left.len() - at,
{
    if at < 0 || at >= left.len() || at >= right.len() || left[at] != right[at] {
        at
    } else {
        shared_from(left, right, at + 1)
    }
}

/// How many leading bytes two sequences share.
pub open spec fn shared_prefix(left: Seq<u8>, right: Seq<u8>) -> int {
    shared_from(left, right, 0)
}

/// The shared bytes are equal, and the next are not.
proof fn lemma_shared(left: Seq<u8>, right: Seq<u8>, at: int)
    requires
        0 <= at <= left.len(),
        at <= right.len(),
        left.take(at) == right.take(at),
    ensures
        at <= shared_from(left, right, at) <= left.len(),
        shared_from(left, right, at) <= right.len(),
        left.take(shared_from(left, right, at)) == right.take(shared_from(left, right, at)),
    decreases left.len() - at,
{
    if at < left.len() && at < right.len() && left[at] == right[at] {
        assert(left.take(at + 1) =~= left.take(at).push(left[at]));
        assert(right.take(at + 1) =~= right.take(at).push(right[at]));
        lemma_shared(left, right, at + 1);
    }
}

/// Count the leading bytes that two sequences share.
fn count_shared(left: &[u8], right: &[u8]) -> (count: usize)
    ensures
        count == shared_prefix(left@, right@),
        count <= left@.len(),
        count <= right@.len(),
        left@.take(count as int) == right@.take(count as int),
{
    let mut at: usize = 0;
    while at < left.len() && at < right.len() && left[at] == right[at]
        invariant
            at <= left@.len(),
            at <= right@.len(),
            shared_prefix(left@, right@) == shared_from(left@, right@, at as int),
        decreases left.len() - at,
    {
        at = at + 1;
    }
    proof {
        assert(left@.take(0) =~= right@.take(0));
        lemma_shared(left@, right@, 0);
    }
    at
}

/// What follows the last slash of a path.
pub open spec fn last_segment(path: Seq<char>) -> Seq<char>
    decreases path.len(),
{
    if path.len() == 0 || path.last() == '/' {
        Seq::empty()
    } else {
        last_segment(path.drop_last()).push(path.last())
    }
}

/// Bytes that a text takes in UTF-8.
pub open spec fn text_len(text: Seq<char>) -> nat {
    vstd::utf8::encode_utf8(text).len()
}

/// How well two paths match: equal, the same name, or not.
pub open spec fn spec_path_score(
    target: Option<Seq<char>>,
    base: Option<Seq<char>>,
    maximum: int,
) -> u8 {
    match (target, base) {
        (Some(target), Some(base)) => if text_len(target) > maximum || text_len(base) > maximum {
            0
        } else if target == base {
            2
        } else if last_segment(target) == last_segment(base) {
            1
        } else {
            0
        },
        _ => 0,
    }
}

/// Collect what follows the last slash of a path.
fn segment_of(path: &String) -> (segment: Vec<char>)
    ensures
        segment@ == last_segment(path@),
{
    let mut segment: Vec<char> = Vec::new();
    let ghost all = path@;
    for letter in walk: path.as_str().chars()
        invariant
            walk.seq() == all,
            segment@ == last_segment(all.take(walk.index() as int)),
    {
        let ghost at = walk.index() as int;
        proof {
            assert(all.take(at + 1).drop_last() =~= all.take(at));
            assert(all.take(at + 1).last() == all[at]);
        }
        if letter == '/' {
            segment.clear();
        } else {
            segment.push(letter);
        }
    }
    assert(all.take(all.len() as int) =~= all);
    segment
}

/// Return whether two segments are equal.
fn same_segment(left: &Vec<char>, right: &Vec<char>) -> (same: bool)
    ensures
        same == (left@ == right@),
{
    if left.len() != right.len() {
        return false;
    }
    let mut at: usize = 0;
    while at < left.len()
        invariant
            at <= left@.len(),
            left@.len() == right@.len(),
            forall|i: int| 0 <= i < at ==> left@[i] == right@[i],
        decreases left.len() - at,
    {
        if left[at] != right[at] {
            return false;
        }
        at = at + 1;
    }
    assert(left@ =~= right@);
    true
}

/// The view of an optional text.
pub open spec fn hint(text: Option<String>) -> Option<Seq<char>> {
    match text {
        Some(text) => Some(text@),
        None => None,
    }
}

/// Score how well two paths match.
pub fn path_score(target: &Option<String>, base: &Option<String>, maximum: usize) -> (score: u8)
    ensures
        score == spec_path_score(hint(*target), hint(*base), maximum as int),
{
    match (target, base) {
        (Some(target), Some(base)) => {
            if crate::admission::text_bytes(target) > maximum || crate::admission::text_bytes(base)
                > maximum {
                return 0;
            }
            if *target == *base {
                return 2;
            }
            if same_segment(&segment_of(target), &segment_of(base)) {
                1
            } else {
                0
            }
        },
        _ => 0,
    }
}

/// Bytes represented by a window.
pub open spec fn window_bytes(window: Seq<(usize, u64, ObjectKind)>) -> int
    decreases window.len(),
{
    if window.len() == 0 {
        0
    } else {
        window[0].1 + window_bytes(window.skip(1))
    }
}

/// Objects of one kind in the windows.
pub open spec fn kind_count(window: Seq<(usize, u64, ObjectKind)>, kind: ObjectKind) -> int
    decreases window.len(),
{
    if window.len() == 0 {
        0
    } else {
        kind_count(window.drop_last(), kind) + if window.last().2 == kind {
            1int
        } else {
            0
        }
    }
}

/// Where the oldest object of a kind stands, from `at` on.
pub open spec fn oldest_of(
    window: Seq<(usize, u64, ObjectKind)>,
    kind: ObjectKind,
    at: int,
) -> int
    decreases window.len() - at,
{
    if at < 0 || at >= window.len() || window[at].2 == kind {
        at
    } else {
        oldest_of(window, kind, at + 1)
    }
}

/// The windows with room for one more object of the kind: a full window gives up its oldest.
pub open spec fn thinned(
    window: Seq<(usize, u64, ObjectKind)>,
    kind: ObjectKind,
    options: DeltaPackOptions,
) -> Seq<(usize, u64, ObjectKind)> {
    if kind_count(window, kind) >= options.window {
        window.remove(oldest_of(window, kind, 0))
    } else {
        window
    }
}

/// The windows without their oldest objects, so that `bytes` more fit over all of them.
pub open spec fn evicted(
    window: Seq<(usize, u64, ObjectKind)>,
    bytes: int,
    options: DeltaPackOptions,
) -> Seq<(usize, u64, ObjectKind)>
    decreases window.len(),
{
    if window.len() > 0 && window_bytes(window) + bytes > options.max_retained_base_bytes {
        evicted(window.skip(1), bytes, options)
    } else {
        window
    }
}

/// The windows after an object of `bytes` at place `index`; too large an object is left out.
pub open spec fn window_after(
    window: Seq<(usize, u64, ObjectKind)>,
    index: usize,
    bytes: u64,
    kind: ObjectKind,
    options: DeltaPackOptions,
) -> Seq<(usize, u64, ObjectKind)> {
    if bytes > options.max_retained_base_bytes {
        window
    } else {
        evicted(thinned(window, kind, options), bytes as int, options).push((index, bytes, kind))
    }
}

/// The windows of all kinds in front of the object at place `count`, in order of arrival.
pub open spec fn window_before(
    entries: Seq<DeltaPlannedEntry>,
    count: int,
    options: DeltaPackOptions,
) -> Seq<(usize, u64, ObjectKind)>
    decreases count,
{
    if count <= 0 {
        Seq::empty()
    } else {
        window_after(
            window_before(entries, count - 1, options),
            (count - 1) as usize,
            entries[count - 1].object.data@.len() as u64,
            entries[count - 1].object.kind,
            options,
        )
    }
}

/// Window bytes are never negative, and appending adds.
proof fn lemma_window_push(window: Seq<(usize, u64, ObjectKind)>, item: (usize, u64, ObjectKind))
    ensures
        window_bytes(window) >= 0,
        window_bytes(window.push(item)) == window_bytes(window) + item.1,
    decreases window.len(),
{
    if window.len() == 0 {
        assert(window.push(item).skip(1) =~= window);
        reveal_with_fuel(window_bytes, 2);
    } else {
        assert(window.push(item).skip(1) =~= window.skip(1).push(item));
        lemma_window_push(window.skip(1), item);
    }
}

/// Removing one object takes it out of the bytes and out of the count of its kind.
proof fn lemma_window_remove(window: Seq<(usize, u64, ObjectKind)>, at: int, kind: ObjectKind)
    requires
        0 <= at < window.len(),
    ensures
        window_bytes(window.remove(at)) == window_bytes(window) - window[at].1,
        kind_count(window.remove(at), kind) == kind_count(window, kind) - if window[at].2 == kind {
            1int
        } else {
            0
        },
    decreases window.len(),
{
    lemma_bytes_remove(window, at);
    if at == window.len() - 1 {
        assert(window.remove(at) =~= window.drop_last());
    } else {
        assert(window.remove(at).drop_last() =~= window.drop_last().remove(at));
        lemma_window_remove(window.drop_last(), at, kind);
    }
}

/// Removing one object takes it out of the bytes.
proof fn lemma_bytes_remove(window: Seq<(usize, u64, ObjectKind)>, at: int)
    requires
        0 <= at < window.len(),
    ensures
        window_bytes(window.remove(at)) == window_bytes(window) - window[at].1,
    decreases at,
{
    if at == 0 {
        assert(window.remove(0) =~= window.skip(1));
    } else {
        assert(window.remove(at).skip(1) =~= window.skip(1).remove(at - 1));
        lemma_bytes_remove(window.skip(1), at - 1);
    }
}

/// Some object of a counted kind is found.
proof fn lemma_oldest(window: Seq<(usize, u64, ObjectKind)>, kind: ObjectKind, at: int)
    requires
        0 <= at <= window.len(),
        forall|i: int| 0 <= i < at ==> (#[trigger] window[i]).2 != kind,
        kind_count(window, kind) > 0,
    ensures
        at <= oldest_of(window, kind, at) < window.len(),
        window[oldest_of(window, kind, at)].2 == kind,
    decreases window.len() - at,
{
    if at == window.len() {
        lemma_uncounted(window, kind);
    } else if window[at].2 != kind {
        lemma_oldest(window, kind, at + 1);
    }
}

/// A kind that is nowhere counts nothing.
proof fn lemma_uncounted(window: Seq<(usize, u64, ObjectKind)>, kind: ObjectKind)
    requires
        forall|i: int| 0 <= i < window.len() ==> (#[trigger] window[i]).2 != kind,
    ensures
        kind_count(window, kind) == 0,
    decreases window.len(),
{
    if window.len() > 0 {
        assert forall|i: int| 0 <= i < window.drop_last().len() implies (
        #[trigger] window.drop_last()[i]).2 != kind by {
            assert(window.drop_last()[i] == window[i]);
        }
        lemma_uncounted(window.drop_last(), kind);
    }
}

/// The windows keep their bounds, and hold earlier places in order.
pub open spec fn window_bounded(
    window: Seq<(usize, u64, ObjectKind)>,
    count: int,
    options: DeltaPackOptions,
) -> bool {
    &&& forall|kind: ObjectKind| #[trigger] kind_count(window, kind) <= options.window
    &&& window_bytes(window) <= options.max_retained_base_bytes
    &&& forall|k: int| 0 <= k < window.len() ==> (#[trigger] window[k]).0 < count
    &&& forall|i: int, j: int|
        #![trigger window[i], window[j]]
        0 <= i < j < window.len() ==> window[i].0 < window[j].0
}

/// Removing an object keeps the windows within their bounds.
proof fn lemma_bounded_remove(
    window: Seq<(usize, u64, ObjectKind)>,
    at: int,
    count: int,
    options: DeltaPackOptions,
)
    requires
        0 <= at < window.len(),
        window_bounded(window, count, options),
    ensures
        window_bounded(window.remove(at), count, options),
{
    let after = window.remove(at);
    lemma_bytes_remove(window, at);
    assert forall|kind: ObjectKind| #[trigger] kind_count(after, kind) <= options.window by {
        lemma_window_remove(window, at, kind);
        assert(kind_count(window, kind) <= options.window);
    }
    assert forall|k: int| 0 <= k < after.len() implies (#[trigger] after[k]).0 < count by {
        assert(after[k] == window[if k < at { k } else { k + 1 }]);
    }
    assert forall|i: int, j: int|
        #![trigger after[i], after[j]]
        0 <= i < j < after.len() implies after[i].0 < after[j].0 by {
        assert(after[i] == window[if i < at { i } else { i + 1 }]);
        assert(after[j] == window[if j < at { j } else { j + 1 }]);
    }
}

/// Eviction makes room and keeps the bounds.
proof fn lemma_evicted(
    window: Seq<(usize, u64, ObjectKind)>,
    bytes: int,
    kind: ObjectKind,
    count: int,
    options: DeltaPackOptions,
)
    requires
        0 <= bytes <= options.max_retained_base_bytes,
        window_bounded(window, count, options),
    ensures
        window_bytes(evicted(window, bytes, options)) + bytes <= options.max_retained_base_bytes,
        window_bounded(evicted(window, bytes, options), count, options),
        kind_count(evicted(window, bytes, options), kind) <= kind_count(window, kind),
    decreases window.len(),
{
    if window.len() > 0 && window_bytes(window) + bytes > options.max_retained_base_bytes {
        assert(window.remove(0) =~= window.skip(1));
        lemma_bounded_remove(window, 0, count, options);
        lemma_window_remove(window, 0, kind);
        lemma_evicted(window.skip(1), bytes, kind, count, options);
    }
}

/// Making room for one more object of a kind keeps the bounds.
proof fn lemma_thinned(
    window: Seq<(usize, u64, ObjectKind)>,
    kind: ObjectKind,
    count: int,
    options: DeltaPackOptions,
)
    requires
        options.valid(),
        window_bounded(window, count, options),
    ensures
        window_bounded(thinned(window, kind, options), count, options),
        kind_count(thinned(window, kind, options), kind) < options.window,
        kind_count(window, kind) >= options.window ==> 0 <= oldest_of(window, kind, 0)
            < window.len(),
{
    assert(kind_count(window, kind) <= options.window);
    if kind_count(window, kind) >= options.window {
        lemma_oldest(window, kind, 0);
        let at = oldest_of(window, kind, 0);
        lemma_window_remove(window, at, kind);
        lemma_bounded_remove(window, at, count, options);
    }
}

/// One object keeps the windows within their bounds.
proof fn lemma_window_step(
    window: Seq<(usize, u64, ObjectKind)>,
    index: usize,
    bytes: u64,
    kind: ObjectKind,
    options: DeltaPackOptions,
)
    requires
        options.valid(),
        window_bounded(window, index as int, options),
    ensures
        window_bounded(window_after(window, index, bytes, kind, options), index + 1, options),
{
    if bytes <= options.max_retained_base_bytes {
        lemma_thinned(window, kind, index as int, options);
        let thin = thinned(window, kind, options);
        lemma_evicted(thin, bytes as int, kind, index as int, options);
        let kept = evicted(thin, bytes as int, options);
        lemma_window_push(kept, (index, bytes, kind));
        let after = kept.push((index, bytes, kind));
        assert(after.drop_last() =~= kept);
        assert forall|other: ObjectKind| #[trigger] kind_count(after, other) <= options.window by {
            assert(kind_count(kept, other) <= options.window);
        }
        assert forall|k: int| 0 <= k < after.len() implies (#[trigger] after[k]).0 < index + 1 by {
            if k < kept.len() {
                assert(kept[k] == after[k]);
            }
        }
        assert forall|i: int, j: int|
            #![trigger after[i], after[j]]
            0 <= i < j < after.len() implies after[i].0 < after[j].0 by {
            assert(kept[i] == after[i]);
            if j < kept.len() {
                assert(kept[j] == after[j]);
            }
        }
    } else {
        assert forall|k: int| 0 <= k < window.len() implies (#[trigger] window[k]).0 < index + 1 by {
            assert(window[k].0 < index);
        }
    }
}

/// In every plan each kind has at most the allowed number of objects in its window, and all windows
/// together keep the byte bound.
pub proof fn law_window_stays_bounded(
    entries: Seq<DeltaPlannedEntry>,
    count: int,
    options: DeltaPackOptions,
)
    requires
        options.valid(),
        0 <= count <= entries.len(),
        entries.len() <= usize::MAX,
    ensures
        window_bounded(window_before(entries, count, options), count, options),
    decreases count,
{
    if count > 0 {
        law_window_stays_bounded(entries, count - 1, options);
        lemma_window_step(
            window_before(entries, count - 1, options),
            (count - 1) as usize,
            entries[count - 1].object.data@.len() as u64,
            entries[count - 1].object.kind,
            options,
        );
    }
}

/// Depth of a stored representation, given the depths of earlier objects.
pub open spec fn stored_depth(kind: StoredPackEntryKind, depths: Map<ObjectId, u64>) -> int {
    match kind {
        StoredPackEntryKind::Direct(_) => 0,
        StoredPackEntryKind::RefDelta { base, .. } => depth_above(depths, base),
        StoredPackEntryKind::OfsDelta { base, .. } => depth_above(depths, base),
    }
}

/// One more than the depth of a base; an unknown base has the largest depth.
pub open spec fn depth_above(depths: Map<ObjectId, u64>, base: ObjectId) -> int {
    if !depths.dom().contains(base) || depths[base] >= 65_535 {
        65_535
    } else {
        depths[base] + 1
    }
}

/// Depth of a planned entry.
pub open spec fn entry_depth(entry: DeltaPlannedEntry, depths: Map<ObjectId, u64>) -> int {
    match entry.action {
        DeltaEntryAction::Generated(delta) => delta.spec_depth() as int,
        DeltaEntryAction::Reuse(stored) => stored_depth(stored.spec_kind(), depths),
        DeltaEntryAction::Direct(_) => 0,
    }
}

/// Depths of the first objects, by identity; the last entry of an identity counts.
pub open spec fn depths_before(entries: Seq<DeltaPlannedEntry>, count: int) -> Map<ObjectId, u64>
    decreases count,
{
    if count <= 0 {
        Map::empty()
    } else {
        depths_before(entries, count - 1).insert(
            entries[count - 1].oid,
            entry_depth(entries[count - 1], depths_before(entries, count - 1)) as u64,
        )
    }
}

/// Compute the depth of a stored representation.
fn stored_dependency_depth(kind: StoredPackEntryKind, depths: &OidMap) -> (depth: u16)
    ensures
        depth == stored_depth(kind, depths@),
{
    let base: ObjectId = match kind {
        StoredPackEntryKind::Direct(_) => {
            return 0;
        },
        StoredPackEntryKind::RefDelta { base, .. } => base,
        StoredPackEntryKind::OfsDelta { base, .. } => base,
    };
    match depths.get(base) {
        Some(depth) => {
            if depth >= 65_535 {
                65_535
            } else {
                depth as u16 + 1
            }
        },
        None => 65_535,
    }
}

/// A similar earlier object.
#[derive(Clone, Copy, Debug, PartialEq, Eq, Structural)]
pub struct Candidate {
    /// Base object.
    pub oid: ObjectId,
    /// Place of the base in the plan.
    pub index: usize,
    /// How well the paths match.
    pub path_score: u8,
    /// Shared leading bytes.
    pub prefix: usize,
    /// Difference of the sizes.
    pub size_difference: usize,
    /// Depth of a delta on it.
    pub depth: u16,
}

impl Candidate {
    /// Better path, longer prefix, closer size, lower identity, later place: the first that differs
    /// decides.
    pub open spec fn spec_better(self, other: Candidate) -> bool {
        if self.path_score != other.path_score {
            self.path_score > other.path_score
        } else if self.prefix != other.prefix {
            self.prefix > other.prefix
        } else if self.size_difference != other.size_difference {
            self.size_difference < other.size_difference
        } else if self.oid != other.oid {
            self.oid.spec_before(other.oid)
        } else {
            self.index > other.index
        }
    }

    /// Return whether this candidate is preferred.
    fn better_than(&self, other: &Candidate) -> (better: bool)
        ensures
            better == self.spec_better(*other),
    {
        if self.path_score != other.path_score {
            self.path_score > other.path_score
        } else if self.prefix != other.prefix {
            self.prefix > other.prefix
        } else if self.size_difference != other.size_difference {
            self.size_difference < other.size_difference
        } else if self.oid != other.oid {
            self.oid.before(other.oid)
        } else {
            self.index > other.index
        }
    }
}

/// Preference is a strict order.
pub proof fn law_preference_is_an_order(a: Candidate, b: Candidate, c: Candidate)
    ensures
        !a.spec_better(a),
        a.spec_better(b) ==> !b.spec_better(a),
        a.spec_better(b) && b.spec_better(c) ==> a.spec_better(c),
        a.spec_better(b) || b.spec_better(a) || (a.oid == b.oid && a.index == b.index),
        !b.spec_better(a) && c.spec_better(a) ==> !b.spec_better(c),
{
    crate::object::lemma_id_order_total(a.oid, b.oid);
    crate::object::lemma_id_order_total(b.oid, c.oid);
    crate::object::lemma_id_order_total(a.oid, c.oid);
}

/// A base is similar enough to a target.
pub open spec fn similar(
    target: DeltaObjectInput,
    base: DeltaPlannedEntry,
    options: DeltaPackOptions,
) -> bool {
    let prefix = shared_prefix(base.object.data@, target.object.data@);
    &&& base.object.kind == target.object.kind
    &&& base.object.data@.len() > 0
    &&& base.oid != target.oid
    &&& base.object.data@.len() <= options.max_retained_base_bytes
    &&& prefix >= 16
    &&& 2 * prefix >= target.object.data@.len()
}

/// The depth that a delta on a base has.
pub open spec fn delta_depth(depths: Map<ObjectId, u64>, base: ObjectId) -> int {
    if !depths.dom().contains(base) {
        1
    } else {
        depth_above(depths, base)
    }
}

/// The candidate is what a similar base amounts to.
pub open spec fn candidate_of(
    candidate: Candidate,
    target: DeltaObjectInput,
    entries: Seq<DeltaPlannedEntry>,
    index: int,
    depths: Map<ObjectId, u64>,
    options: DeltaPackOptions,
) -> bool {
    let base = entries[index];
    &&& similar(target, base, options)
    &&& candidate.oid == base.oid
    &&& candidate.index == index
    &&& candidate.path_score == spec_path_score(
        hint(target.path_hint),
        hint(base.path_hint),
        options.max_path_hint_bytes as int,
    )
    &&& candidate.prefix == shared_prefix(base.object.data@, target.object.data@)
    &&& candidate.size_difference == if base.object.data@.len() > target.object.data@.len() {
        base.object.data@.len() - target.object.data@.len()
    } else {
        target.object.data@.len() - base.object.data@.len()
    }
    &&& candidate.depth == delta_depth(depths, base.oid)
}

/// The base is compared with the target byte by byte.
pub open spec fn compared(
    target: DeltaObjectInput,
    base: DeltaPlannedEntry,
    options: DeltaPackOptions,
) -> bool {
    &&& base.object.kind == target.object.kind
    &&& base.object.data@.len() > 0
    &&& base.oid != target.oid
    &&& base.object.data@.len() <= options.max_retained_base_bytes
}

/// Inspect one base.
fn inspect_candidate<B: DeltaWorkBudget>(
    target: &DeltaObjectInput,
    planned: &Vec<DeltaPlannedEntry>,
    index: usize,
    base_depth: Option<u64>,
    options: DeltaPackOptions,
    budget: &mut B,
    Ghost(depths): Ghost<Map<ObjectId, u64>>,
) -> (result: Result<Option<Candidate>, ()>)
    requires
        index < planned@.len(),
        base_depth is Some <==> depths.dom().contains(planned@[index as int].oid),
        base_depth is Some ==> base_depth->0 == depths[planned@[index as int].oid],
    ensures
        match result {
            Ok(Some(candidate)) => candidate_of(
                candidate,
                *target,
                planned@,
                index as int,
                depths,
                options,
            ) && B::answers(scan_units(planned@[index as int].object, target.object), true),
            Ok(None) => !similar(*target, planned@[index as int], options),
            Err(_) => {
                let units = scan_units(planned@[index as int].object, target.object);
                &&& compared(*target, planned@[index as int], options)
                &&& B::answers(units, false)
                &&& short_of(old(budget).allowance(), units as int)
            },
        },
        spent_within(
            old(budget).allowance(),
            final(budget).allowance(),
            scan_units(planned@[index as int].object, target.object) as int,
        ),
{
    let base = &planned[index];
    if base.object.kind != target.object.kind || base.object.data.len() == 0 || base.oid
        == target.oid {
        return Ok(None);
    }
    if base.object.data.len() as u64 > options.max_retained_base_bytes {
        return Ok(None);
    }
    let base_len: usize = base.object.data.len();
    let target_len: usize = target.object.data.len();
    let scan: u64 = if base_len < target_len {
        base_len as u64
    } else {
        target_len as u64
    };
    if !budget.charge(scan) {
        return Err(());
    }
    let prefix: usize = count_shared(base.object.data.as_slice(), target.object.data.as_slice());
    if prefix < 16 || (prefix as u128) * 2 < target_len as u128 {
        return Ok(None);
    }
    let depth: u16 = match base_depth {
        Some(depth) => if depth >= 65_535 {
            65_535
        } else {
            depth as u16 + 1
        },
        None => 1,
    };
    Ok(
        Some(
            Candidate {
                oid: base.oid,
                index,
                path_score: path_score(
                    &target.path_hint,
                    &base.path_hint,
                    options.max_path_hint_bytes,
                ),
                prefix,
                size_difference: if base_len > target_len {
                    base_len - target_len
                } else {
                    target_len - base_len
                },
                depth,
            },
        ),
    )
}

/// A candidate at a place whose depth is allowed.
pub open spec fn qualifies(
    candidate: Candidate,
    target: DeltaObjectInput,
    entries: Seq<DeltaPlannedEntry>,
    index: int,
    depths: Map<ObjectId, u64>,
    options: DeltaPackOptions,
) -> bool {
    candidate_of(candidate, target, entries, index, depths, options) && candidate.depth
        <= options.max_depth
}

/// The preferred candidate among the window from `from` on, if any qualifies.
pub open spec fn best_of(
    best: Option<Candidate>,
    target: DeltaObjectInput,
    entries: Seq<DeltaPlannedEntry>,
    window: Seq<(usize, u64, ObjectKind)>,
    from: int,
    depths: Map<ObjectId, u64>,
    options: DeltaPackOptions,
) -> bool {
    &&& best is Some ==> exists|k: int|
        from <= k < window.len() && qualifies(
            best->0,
            target,
            entries,
            (#[trigger] window[k]).0 as int,
            depths,
            options,
        )
    &&& forall|k: int, other: Candidate|
        from <= k < window.len() && #[trigger] qualifies(
            other,
            target,
            entries,
            window[k].0 as int,
            depths,
            options,
        ) ==> best is Some && !other.spec_better(best->0)
}

/// Why the search for a candidate stopped.
enum Search {
    /// The window was searched.
    Done(Option<Candidate>),
    /// The comparison limit was reached.
    Comparisons,
    /// The work budget was exhausted.
    Work,
}

/// Only comparisons were counted.
spec fn only_compared(before: DeltaPlanningReport, after: DeltaPlanningReport) -> bool {
    &&& after == DeltaPlanningReport {
        candidate_comparisons: after.candidate_comparisons,
        ..before
    }
    &&& before.candidate_comparisons <= after.candidate_comparisons
}

/// Objects of one kind in the window, from `at` on.
pub open spec fn comparable(
    entries: Seq<DeltaPlannedEntry>,
    window: Seq<(usize, u64, ObjectKind)>,
    at: int,
    kind: ObjectKind,
) -> int
    decreases window.len() - at,
{
    if at < 0 || at >= window.len() {
        0
    } else {
        comparable(entries, window, at + 1, kind) + if entries[window[at].0 as int].object.kind
            == kind {
            1int
        } else {
            0
        }
    }
}

/// Units charged for comparing a target with all objects of its kind in the window, from `at` on.
pub open spec fn scan_work(
    target: StoredObject,
    entries: Seq<DeltaPlannedEntry>,
    window: Seq<(usize, u64, ObjectKind)>,
    at: int,
) -> int
    decreases window.len() - at,
{
    if at < 0 || at >= window.len() {
        0
    } else {
        scan_work(target, entries, window, at + 1) + if entries[window[at].0 as int].object.kind
            == target.kind {
            scan_units(entries[window[at].0 as int].object, target) as int
        } else {
            0
        }
    }
}

/// A longer part of the window takes no less work.
proof fn lemma_scan_grows(
    target: StoredObject,
    entries: Seq<DeltaPlannedEntry>,
    window: Seq<(usize, u64, ObjectKind)>,
    at: int,
)
    requires
        0 <= at <= window.len(),
    ensures
        scan_work(target, entries, window, at) <= scan_work(target, entries, window, 0),
    decreases at,
{
    if at > 0 {
        lemma_scan_grows(target, entries, window, at - 1);
    }
}

/// Comparing some object of the window was refused.
pub open spec fn scan_refused<B: DeltaWorkBudget>(
    target: DeltaObjectInput,
    entries: Seq<DeltaPlannedEntry>,
    window: Seq<(usize, u64, ObjectKind)>,
    options: DeltaPackOptions,
) -> bool {
    exists|k: int|
        0 <= k < window.len() && compared(
            target,
            entries[(#[trigger] window[k]).0 as int],
            options,
        ) && B::answers(scan_units(entries[window[k].0 as int].object, target.object), false)
}

/// A longer part of the window holds no fewer objects.
proof fn lemma_comparable_grows(
    entries: Seq<DeltaPlannedEntry>,
    window: Seq<(usize, u64, ObjectKind)>,
    at: int,
    kind: ObjectKind,
)
    requires
        0 <= at <= window.len(),
    ensures
        comparable(entries, window, at, kind) <= comparable(entries, window, 0, kind),
    decreases at,
{
    if at > 0 {
        lemma_comparable_grows(entries, window, at - 1, kind);
    }
}

/// Search the window for the preferred candidate.
fn search_window<B: DeltaWorkBudget>(
    target: &DeltaObjectInput,
    planned: &Vec<DeltaPlannedEntry>,
    window: &Vec<(usize, u64, ObjectKind)>,
    depths: &OidMap,
    options: DeltaPackOptions,
    budget: &mut B,
    report: &mut DeltaPlanningReport,
) -> (search: Search)
    requires
        forall|k: int| 0 <= k < window@.len() ==> (#[trigger] window@[k]).0 < planned@.len(),
        old(report).candidate_comparisons <= options.max_candidate_comparisons,
    ensures
        only_compared(*old(report), *final(report)),
        final(report).candidate_comparisons <= options.max_candidate_comparisons,
        match search {
            Search::Done(best) => best_of(
                best,
                *target,
                planned@,
                window@,
                0,
                depths@,
                options,
            ) && final(report).candidate_comparisons == old(report).candidate_comparisons
                + comparable(planned@, window@, 0, target.object.kind) && (best matches Some(
                found,
            ) ==> B::answers(scan_units(planned@[found.index as int].object, target.object), true)),
            Search::Comparisons => final(report).candidate_comparisons
                == options.max_candidate_comparisons && old(report).candidate_comparisons
                + comparable(planned@, window@, 0, target.object.kind)
                > options.max_candidate_comparisons,
            Search::Work => scan_refused::<B>(*target, planned@, window@, options) && short_of(
                old(budget).allowance(),
                scan_work(target.object, planned@, window@, 0),
            ),
        },
        spent_within(
            old(budget).allowance(),
            final(budget).allowance(),
            scan_work(target.object, planned@, window@, 0),
        ),
{
    let mut best: Option<Candidate> = None;
    let mut at: usize = window.len();
    while at > 0
        invariant
            at <= window@.len(),
            forall|k: int| 0 <= k < window@.len() ==> (#[trigger] window@[k]).0 < planned@.len(),
            only_compared(*old(report), *report),
            report.candidate_comparisons <= options.max_candidate_comparisons,
            report.candidate_comparisons == old(report).candidate_comparisons + comparable(
                planned@,
                window@,
                at as int,
                target.object.kind,
            ),
            best_of(best, *target, planned@, window@, at as int, depths@, options),
            best matches Some(found) ==> B::answers(
                scan_units(planned@[found.index as int].object, target.object),
                true,
            ),
            spent_within(
                old(budget).allowance(),
                budget.allowance(),
                scan_work(target.object, planned@, window@, at as int),
            ),
        decreases at,
    {
        at = at - 1;
        proof {
            lemma_scan_grows(target.object, planned@, window@, at as int);
        }
        let index: usize = window[at].0;
        let ghost before = best;
        if planned[index].object.kind != target.object.kind {
            assert forall|k: int, other: Candidate|
                at <= k < window@.len() && #[trigger] qualifies(
                    other,
                    *target,
                    planned@,
                    window@[k].0 as int,
                    depths@,
                    options,
                ) implies best is Some && !other.spec_better(best->0) by {
                if k == at {
                    assert(!similar(*target, planned@[index as int], options));
                }
            }
            continue;
        }
        if report.candidate_comparisons >= options.max_candidate_comparisons {
            proof {
                lemma_comparable_grows(planned@, window@, at as int, target.object.kind);
            }
            return Search::Comparisons;
        }
        report.candidate_comparisons = report.candidate_comparisons.saturating_add(1);
        let base_depth: Option<u64> = depths.get(planned[index].oid);
        let found = match inspect_candidate(
            target,
            planned,
            index,
            base_depth,
            options,
            budget,
            Ghost(depths@),
        ) {
            Ok(found) => found,
            Err(_) => {
                assert(window@[at as int].0 == index);
                return Search::Work;
            },
        };
        match found {
            Some(candidate) => {
                let preferred: bool = match &best {
                    Some(current) => candidate.better_than(current),
                    None => true,
                };
                if candidate.depth <= options.max_depth && preferred {
                    best = Some(candidate);
                }
                proof {
                    if best is Some {
                        assert(exists|k: int|
                            at <= k < window@.len() && qualifies(
                                best->0,
                                *target,
                                planned@,
                                (#[trigger] window@[k]).0 as int,
                                depths@,
                                options,
                            )) by {
                            if best == before {
                                let k = choose|k: int|
                                    at + 1 <= k < window@.len() && qualifies(
                                        before->0,
                                        *target,
                                        planned@,
                                        (#[trigger] window@[k]).0 as int,
                                        depths@,
                                        options,
                                    );
                                assert(window@[k].0 < planned@.len());
                            } else {
                                assert(window@[at as int].0 == index);
                            }
                        }
                    }
                    assert forall|k: int, other: Candidate|
                        at <= k < window@.len() && #[trigger] qualifies(
                            other,
                            *target,
                            planned@,
                            window@[k].0 as int,
                            depths@,
                            options,
                        ) implies best is Some && !other.spec_better(best->0) by {
                        if k == at {
                            assert(other == candidate);
                            law_preference_is_an_order(candidate, candidate, candidate);
                        } else {
                            assert(before is Some && !other.spec_better(before->0));
                            if best != before {
                                law_preference_is_an_order(before->0, other, candidate);
                            }
                        }
                    }
                }
            },
            None => {
                proof {
                    assert forall|k: int, other: Candidate|
                        at <= k < window@.len() && #[trigger] qualifies(
                            other,
                            *target,
                            planned@,
                            window@[k].0 as int,
                            depths@,
                            options,
                        ) implies best is Some && !other.spec_better(best->0) by {
                        if k == at {
                            assert(!similar(*target, planned@[index as int], options));
                        }
                    }
                }
            },
        }
    }
    Search::Done(best)
}

/// A delta of `delta_size` compressed bytes is worth it over a direct stream of `direct_size`.
pub open spec fn worth(delta_size: int, direct_size: int, options: DeltaPackOptions) -> bool {
    &&& delta_size * options.max_expansion_denominator <= direct_size
        * options.max_expansion_numerator
    &&& delta_size + options.min_savings_bytes <= direct_size
}

/// Decide whether a delta is worth it.
pub fn worth_delta(delta_size: u64, direct_size: u64, options: DeltaPackOptions) -> (kept: bool)
    ensures
        kept == worth(delta_size as int, direct_size as int, options),
{
    proof {
        assert(delta_size * options.max_expansion_denominator <= 0xffff_ffff_ffff_ffff
            * 0xffff_ffff) by (nonlinear_arith)
            requires
                0 <= delta_size <= 0xffff_ffff_ffff_ffff,
                0 <= options.max_expansion_denominator <= 0xffff_ffff,
        ;
        assert(direct_size * options.max_expansion_numerator <= 0xffff_ffff_ffff_ffff
            * 0xffff_ffff) by (nonlinear_arith)
            requires
                0 <= direct_size <= 0xffff_ffff_ffff_ffff,
                0 <= options.max_expansion_numerator <= 0xffff_ffff,
        ;
    }
    let delta: u128 = (delta_size as u128) * (options.max_expansion_denominator as u128);
    let direct: u128 = (direct_size as u128) * (options.max_expansion_numerator as u128);
    delta <= direct && delta_size as u128 + options.min_savings_bytes as u128
        <= direct_size as u128
}

/// Instructions of a candidate fit their bound.
pub open spec fn instructions_fit(
    candidate: Candidate,
    target: DeltaObjectInput,
    options: DeltaPackOptions,
) -> bool {
    candidate.prefix <= target.object.data@.len() && candidate.prefix <= 0x1_0000_0000
        && delta_estimate(
        candidate.prefix as int,
        target.object.data@.len() - candidate.prefix,
    ) <= options.max_instruction_bytes
}

/// The instructions that a candidate leads to.
pub open spec fn instructions_of(
    candidate: Candidate,
    target: DeltaObjectInput,
    entries: Seq<DeltaPlannedEntry>,
) -> Seq<u8> {
    prefix_delta(
        entries[candidate.index as int].object.data@.len(),
        target.object.data@,
        candidate.prefix as int,
    )
}

/// A direct stream exists that the delta is worth it over.
pub open spec fn saves(data: Seq<u8>, delta_size: int, options: DeltaPackOptions) -> bool {
    exists|direct_size: int| #[trigger]
        compresses_to(data, direct_size) && worth(delta_size, direct_size, options)
}

/// Streams exist over which the delta is not worth it.
pub open spec fn saves_too_little(
    instructions: Seq<u8>,
    data: Seq<u8>,
    options: DeltaPackOptions,
) -> bool {
    exists|delta_size: int, direct_size: int| #[trigger]
        compresses_to(instructions, delta_size) && #[trigger] compresses_to(data, direct_size)
            && !worth(delta_size, direct_size, options)
}

/// The generated delta is the one that a candidate leads to.
pub open spec fn generated_from(
    delta: GeneratedDeltaPlan,
    candidate: Candidate,
    target: DeltaObjectInput,
    entries: Seq<DeltaPlannedEntry>,
    options: DeltaPackOptions,
) -> bool {
    &&& instructions_fit(candidate, target, options)
    &&& delta.spec_base() == candidate.oid
    &&& delta.spec_base_index() == Some(candidate.index)
    &&& delta.spec_result_kind() == target.object.kind
    &&& delta.spec_result_size() == target.object.data@.len()
    &&& delta.spec_instruction_size() == instructions_of(candidate, target, entries).len()
    &&& zlib_decoded(delta.spec_compressed()) == Some(instructions_of(candidate, target, entries))
    &&& delta.spec_compressed().len() <= options.max_compressed_instruction_bytes
    &&& delta.spec_depth() == candidate.depth
    &&& saves(target.object.data@, delta.spec_compressed().len() as int, options)
}

/// What the preferred candidate of a window leads to.
pub open spec fn best_leads_to(
    action: DeltaEntryAction,
    target: DeltaObjectInput,
    entries: Seq<DeltaPlannedEntry>,
    window: Seq<(usize, u64, ObjectKind)>,
    depths: Map<ObjectId, u64>,
    options: DeltaPackOptions,
) -> bool {
    exists|best: Candidate| #[trigger]
        best_of(Some(best), target, entries, window, 0, depths, options) && candidate_leads_to(
            action,
            best,
            target,
            entries,
            options,
        )
}

/// What a candidate leads to.
pub open spec fn candidate_leads_to(
    action: DeltaEntryAction,
    best: Candidate,
    target: DeltaObjectInput,
    entries: Seq<DeltaPlannedEntry>,
    options: DeltaPackOptions,
) -> bool {
    match action {
        DeltaEntryAction::Generated(delta) => generated_from(
            delta,
            best,
            target,
            entries,
            options,
        ),
        DeltaEntryAction::Direct(DeltaFallbackReason::InstructionBytes) => !instructions_fit(
            best,
            target,
            options,
        ),
        DeltaEntryAction::Direct(DeltaFallbackReason::NotSmaller) => instructions_fit(
            best,
            target,
            options,
        ) && saves_too_little(
            instructions_of(best, target, entries),
            target.object.data@,
            options,
        ),
        DeltaEntryAction::Direct(DeltaFallbackReason::Encoding) => instructions_fit(
            best,
            target,
            options,
        ) && (compression_exceeds(
            instructions_of(best, target, entries),
            options.max_compressed_instruction_bytes as int,
        ) || compression_exceeds(
            target.object.data@,
            options.max_compressed_instruction_bytes as int,
        )),
        _ => false,
    }
}

/// What is selected for an object without a stored representation, while work remains.
///
/// Where the budgets allow the search, the preferred candidate decides; which of its outcomes comes
/// rests on the sizes that the compressor gives and on the work budget.
pub open spec fn selection(
    action: DeltaEntryAction,
    target: DeltaObjectInput,
    entries: Seq<DeltaPlannedEntry>,
    window: Seq<(usize, u64, ObjectKind)>,
    depths: Map<ObjectId, u64>,
    options: DeltaPackOptions,
) -> bool {
    match action {
        DeltaEntryAction::Reuse(_) => false,
        DeltaEntryAction::Direct(DeltaFallbackReason::NoCandidate) => best_of(
            None,
            target,
            entries,
            window,
            0,
            depths,
            options,
        ),
        DeltaEntryAction::Direct(DeltaFallbackReason::WorkBudget) => true,
        DeltaEntryAction::Direct(DeltaFallbackReason::ComparisonBudget) => true,
        DeltaEntryAction::Direct(DeltaFallbackReason::BaseBytes) => false,
        DeltaEntryAction::Direct(DeltaFallbackReason::Depth) => false,
        _ => best_leads_to(action, target, entries, window, depths, options),
    }
}

/// The work of turning a candidate into a delta was refused: of compressing its instructions, or
/// of compressing the object to compare with.
pub open spec fn generation_refused<B: DeltaWorkBudget>(
    best: Candidate,
    target: DeltaObjectInput,
    entries: Seq<DeltaPlannedEntry>,
    options: DeltaPackOptions,
) -> bool {
    &&& instructions_fit(best, target, options)
    &&& {
        ||| B::answers(instructions_of(best, target, entries).len() as u64, false)
        ||| B::answers(target.object.data@.len() as u64, false)
    }
}

/// Work for an object was refused: a comparison with an object of the window, or a step of turning
/// the preferred candidate into a delta.
pub open spec fn work_refused<B: DeltaWorkBudget>(
    target: DeltaObjectInput,
    entries: Seq<DeltaPlannedEntry>,
    window: Seq<(usize, u64, ObjectKind)>,
    depths: Map<ObjectId, u64>,
    options: DeltaPackOptions,
) -> bool {
    ||| scan_refused::<B>(target, entries, window, options)
    ||| exists|best: Candidate| #[trigger]
        best_of(Some(best), target, entries, window, 0, depths, options)
            && generation_refused::<B>(best, target, entries, options)
}

/// Most units that selecting for an object may take.
pub open spec fn selection_work(
    target: StoredObject,
    entries: Seq<DeltaPlannedEntry>,
    window: Seq<(usize, u64, ObjectKind)>,
    options: DeltaPackOptions,
) -> int {
    scan_work(target, entries, window, 0) + options.max_instruction_bytes + target.data@.len()
}

/// Turn the preferred candidate into an action.
fn generate_delta<B: DeltaWorkBudget>(
    target: &DeltaObjectInput,
    planned: &Vec<DeltaPlannedEntry>,
    best: Candidate,
    options: DeltaPackOptions,
    budget: &mut B,
) -> (action: DeltaEntryAction)
    requires
        best.index < planned@.len(),
    ensures
        spent_within(
            old(budget).allowance(),
            final(budget).allowance(),
            options.max_instruction_bytes + target.object.data@.len(),
        ),
        action == DeltaEntryAction::Direct(DeltaFallbackReason::WorkBudget)
            && generation_refused::<B>(best, *target, planned@, options) && short_of(
            old(budget).allowance(),
            options.max_instruction_bytes + target.object.data@.len(),
        ) || candidate_leads_to(
            action,
            best,
            *target,
            planned@,
            options,
        ),
        action is Generated || action is Direct,
        action matches DeltaEntryAction::Generated(delta) ==> B::answers(
            delta.spec_instruction_size(),
            true,
        ) && B::answers(target.object.data@.len() as u64, true) && delta.spec_base_index() == Some(
            best.index,
        ),
{
    let base = &planned[best.index];
    let instructions: Vec<u8> = match encode_lcp_delta_bounded(
        base.object.data.as_slice(),
        target.object.data.as_slice(),
        best.prefix,
        options.max_instruction_bytes,
    ) {
        Some(instructions) => instructions,
        None => {
            return DeltaEntryAction::Direct(DeltaFallbackReason::InstructionBytes);
        },
    };
    let instruction_work: u64 = instructions.len() as u64;
    let base_len: usize = base.object.data.len();
    let target_work: u64 = target.object.data.len() as u64;
    proof {
        law_prefix_delta_fits_estimate(
            base_len as u64,
            target.object.data@,
            best.prefix as int,
        );
        assert(instructions@.len() <= options.max_instruction_bytes);
    }
    if !budget.charge(instruction_work) {
        return DeltaEntryAction::Direct(DeltaFallbackReason::WorkBudget);
    }
    let compressed: Vec<u8> = match compress_bounded(
        instructions.as_slice(),
        options.max_compressed_instruction_bytes,
        true,
    ) {
        Some(compressed) => compressed,
        None => {
            return DeltaEntryAction::Direct(DeltaFallbackReason::Encoding);
        },
    };
    if !budget.charge(target_work) {
        return DeltaEntryAction::Direct(DeltaFallbackReason::WorkBudget);
    }
    let direct: Vec<u8> = match compress_bounded(
        target.object.data.as_slice(),
        options.max_compressed_instruction_bytes,
        false,
    ) {
        Some(direct) => direct,
        None => {
            return DeltaEntryAction::Direct(DeltaFallbackReason::Encoding);
        },
    };
    let direct_size: u64 = direct.len() as u64;
    let delta_size: u64 = compressed.len() as u64;
    proof {
        assert(compresses_to(target.object.data@, direct_size as int));
        assert(compresses_to(instructions@, delta_size as int));
    }
    if !worth_delta(delta_size, direct_size, options) {
        return DeltaEntryAction::Direct(DeltaFallbackReason::NotSmaller);
    }
    assert(saves(target.object.data@, compressed@.len() as int, options));
    let delta = GeneratedDeltaPlan {
        base: best.oid,
        base_index: Some(best.index),
        result_kind: target.object.kind,
        result_size: target_work,
        instruction_size: instruction_work,
        compressed,
        depth: best.depth,
    };
    DeltaEntryAction::Generated(delta)
}

/// Select what to do for an object without a stored representation.
fn select_generated_delta<B: DeltaWorkBudget>(
    target: &DeltaObjectInput,
    planned: &Vec<DeltaPlannedEntry>,
    window: &Vec<(usize, u64, ObjectKind)>,
    depths: &OidMap,
    options: DeltaPackOptions,
    budget: &mut B,
    report: &mut DeltaPlanningReport,
) -> (action: DeltaEntryAction)
    requires
        forall|k: int| 0 <= k < window@.len() ==> (#[trigger] window@[k]).0 < planned@.len(),
        old(report).candidate_comparisons <= options.max_candidate_comparisons,
        !old(report).work_exhausted,
    ensures
        selection(action, *target, planned@, window@, depths@, options),
        *final(report) == (DeltaPlanningReport {
            candidate_comparisons: final(report).candidate_comparisons,
            generated_entries: counted_up(old(report).generated_entries, action is Generated),
            work_exhausted: action == DeltaEntryAction::Direct(DeltaFallbackReason::WorkBudget),
            ..*old(report)
        }),
        old(report).candidate_comparisons <= final(report).candidate_comparisons
            <= options.max_candidate_comparisons,
        action is Generated || action is Direct,
        action == DeltaEntryAction::Direct(DeltaFallbackReason::WorkBudget) ==> work_refused::<B>(
            *target,
            planned@,
            window@,
            depths@,
            options,
        ) && short_of(
            old(budget).allowance(),
            selection_work(target.object, planned@, window@, options),
        ),
        spent_within(
            old(budget).allowance(),
            final(budget).allowance(),
            selection_work(target.object, planned@, window@, options),
        ),
        delta_granted::<B>(action, target.object, planned@),
        action != DeltaEntryAction::Direct(DeltaFallbackReason::WorkBudget) ==> {
            let wanted = old(report).candidate_comparisons + comparable(
                planned@,
                window@,
                0,
                target.object.kind,
            );
            &&& action == DeltaEntryAction::Direct(DeltaFallbackReason::ComparisonBudget) <==> wanted
                > options.max_candidate_comparisons
            &&& final(report).candidate_comparisons == capped(wanted, options)
        },
{
    let search = search_window(target, planned, window, depths, options, budget, report);
    let best: Candidate = match search {
        Search::Comparisons => {
            return DeltaEntryAction::Direct(DeltaFallbackReason::ComparisonBudget);
        },
        Search::Work => {
            report.work_exhausted = true;
            return DeltaEntryAction::Direct(DeltaFallbackReason::WorkBudget);
        },
        Search::Done(None) => {
            return DeltaEntryAction::Direct(DeltaFallbackReason::NoCandidate);
        },
        Search::Done(Some(best)) => best,
    };
    proof {
        let k = choose|k: int|
            0 <= k < window@.len() && qualifies(
                best,
                *target,
                planned@,
                (#[trigger] window@[k]).0 as int,
                depths@,
                options,
            );
        assert(best.index == window@[k].0);
        assert(best_of(Some(best), *target, planned@, window@, 0, depths@, options));
    }
    let action = generate_delta(target, planned, best, options, budget);
    match &action {
        DeltaEntryAction::Direct(DeltaFallbackReason::WorkBudget) => {
            report.work_exhausted = true;
        },
        DeltaEntryAction::Generated(_) => {
            report.generated_entries = report.generated_entries.saturating_add(1);
        },
        _ => {},
    }
    proof {
        if action != DeltaEntryAction::Direct(DeltaFallbackReason::WorkBudget) {
            assert(best_of(Some(best), *target, planned@, window@, 0, depths@, options));
            assert(best_leads_to(action, *target, planned@, window@, depths@, options));
        }
    }
    action
}

/// A counter after an event that may have happened.
pub open spec fn counted_up(count: u64, happened: bool) -> u64 {
    if happened && count < u64::MAX {
        (count + 1) as u64
    } else {
        count
    }
}

/// The object may be planned beside objects of this algorithm.
pub open spec fn input_usable(input: DeltaObjectInput, algo: HashAlgo) -> bool {
    &&& !input.oid.spec_is_zero()
    &&& input.oid.spec_algo() == algo
    &&& input.stored is Some ==> input.stored->0.stands_for(input.oid, input.object)
}

/// All objects may be planned together.
pub open spec fn inputs_usable(objects: Seq<DeltaObjectInput>) -> bool {
    forall|i: int|
        0 <= i < objects.len() ==> input_usable(#[trigger] objects[i], objects[0].oid.spec_algo())
}

/// Check that all objects may be planned together.
fn check_inputs(objects: &Vec<DeltaObjectInput>) -> (usable: bool)
    ensures
        usable == inputs_usable(objects@),
{
    let mut at: usize = 0;
    while at < objects.len()
        invariant
            at <= objects@.len(),
            forall|i: int|
                0 <= i < at ==> input_usable(
                    #[trigger] objects@[i],
                    objects@[0].oid.spec_algo(),
                ),
        decreases objects.len() - at,
    {
        let input = &objects[at];
        let stale: bool = match &input.stored {
            Some(stored) => !stored.matches_result(input.oid, &input.object),
            None => false,
        };
        if input.oid.is_zero() || input.oid.algo() != objects[0].oid.algo() || stale {
            assert(!input_usable(objects@[at as int], objects@[0].oid.spec_algo()));
            return false;
        }
        at = at + 1;
    }
    true
}

/// A path hint is too long to be used.
pub open spec fn hint_too_long(path_hint: Option<String>, options: DeltaPackOptions) -> bool {
    path_hint is Some && text_len(path_hint->0@) > options.max_path_hint_bytes
}

/// The object without a path hint that is too long.
pub open spec fn trimmed_input(
    input: DeltaObjectInput,
    options: DeltaPackOptions,
) -> DeltaObjectInput {
    DeltaObjectInput {
        path_hint: if hint_too_long(input.path_hint, options) {
            None
        } else {
            input.path_hint
        },
        ..input
    }
}

/// What is planned for the object at place `i`.
///
/// A stored representation comes first. Once the work budget is exhausted every other object is
/// direct; until then the preferred candidate in the window decides.
pub open spec fn entry_planned(
    objects: Seq<DeltaObjectInput>,
    entries: Seq<DeltaPlannedEntry>,
    i: int,
    options: DeltaPackOptions,
) -> bool {
    let input = trimmed_input(objects[i], options);
    let entry = entries[i];
    &&& entry.oid == input.oid
    &&& entry.object == input.object
    &&& entry.path_hint == input.path_hint
    &&& match input.stored {
        Some(stored) => if stored_depth(stored.spec_kind(), depths_before(entries, i))
            <= options.max_depth {
            entry.action == DeltaEntryAction::Reuse(stored)
        } else {
            entry.action == DeltaEntryAction::Direct(DeltaFallbackReason::Depth)
        },
        None => if work_stopped(entries, i) {
            entry.action == DeltaEntryAction::Direct(DeltaFallbackReason::WorkBudget)
        } else if input.object.data@.len() == 0 {
            entry.action == DeltaEntryAction::Direct(DeltaFallbackReason::NoCandidate)
        } else {
            &&& selection(
                entry.action,
                input,
                entries.take(i),
                window_before(entries, i, options),
                depths_before(entries, i),
                options,
            )
            &&& entry.action != DeltaEntryAction::Direct(DeltaFallbackReason::WorkBudget) ==> (
            entry.action == DeltaEntryAction::Direct(DeltaFallbackReason::ComparisonBudget)
                <==> compared_before(entries, i, options) + comparable(
                entries.take(i),
                window_before(entries, i, options),
                0,
                input.object.kind,
            ) > options.max_candidate_comparisons)
        },
    }
}

/// A number of comparisons within the limit.
pub open spec fn capped(count: int, options: DeltaPackOptions) -> int {
    if count > options.max_candidate_comparisons {
        options.max_candidate_comparisons as int
    } else {
        count
    }
}

/// No window was searched for the entry: it has a stored form, or no content.
pub open spec fn unsearched(entry: DeltaPlannedEntry) -> bool {
    ||| entry.action is Reuse
    ||| entry.action == DeltaEntryAction::Direct(DeltaFallbackReason::Depth)
    ||| entry.object.data@.len() == 0
}

/// Comparisons made for the first `count` entries while work goes on.
pub open spec fn compared_before(
    entries: Seq<DeltaPlannedEntry>,
    count: int,
    options: DeltaPackOptions,
) -> int
    decreases count,
{
    if count <= 0 {
        0
    } else {
        let before = compared_before(entries, count - 1, options);
        let entry = entries[count - 1];
        if unsearched(entry) {
            before
        } else {
            capped(
                before + comparable(
                    entries.take(count - 1),
                    window_before(entries, count - 1, options),
                    0,
                    entry.object.kind,
                ),
                options,
            )
        }
    }
}

/// Most units that the first `count` entries may take.
pub open spec fn planning_work(
    entries: Seq<DeltaPlannedEntry>,
    count: int,
    options: DeltaPackOptions,
) -> int
    decreases count,
{
    if count <= 0 {
        0
    } else {
        let before = planning_work(entries, count - 1, options);
        let entry = entries[count - 1];
        if unsearched(entry) {
            before
        } else {
            before + selection_work(
                entry.object,
                entries.take(count - 1),
                window_before(entries, count - 1, options),
                options,
            )
        }
    }
}

/// Where planning ran out of work, the work for that object was refused.
pub open spec fn stop_explained<B: DeltaWorkBudget>(
    objects: Seq<DeltaObjectInput>,
    entries: Seq<DeltaPlannedEntry>,
    i: int,
    options: DeltaPackOptions,
) -> bool {
    entries[i].action == DeltaEntryAction::Direct(DeltaFallbackReason::WorkBudget)
        && !work_stopped(entries, i) ==> work_refused::<B>(
        trimmed_input(objects[i], options),
        entries.take(i),
        window_before(entries, i, options),
        depths_before(entries, i),
        options,
    )
}

/// The work budget was exhausted at an earlier object.
pub open spec fn work_stopped(entries: Seq<DeltaPlannedEntry>, count: int) -> bool {
    exists|j: int|
        0 <= j < count && (#[trigger] entries[j]).action == DeltaEntryAction::Direct(
            DeltaFallbackReason::WorkBudget,
        )
}

/// Sort of action.
#[derive(Clone, Copy, Debug, PartialEq, Eq, Structural)]
pub enum DeltaActionKind {
    /// Stored representation.
    Reuse,
    /// Generated delta.
    Generated,
    /// Direct compression.
    Direct,
}

/// The sort of an action.
pub open spec fn kind_of(action: DeltaEntryAction) -> DeltaActionKind {
    match action {
        DeltaEntryAction::Reuse(_) => DeltaActionKind::Reuse,
        DeltaEntryAction::Generated(_) => DeltaActionKind::Generated,
        DeltaEntryAction::Direct(_) => DeltaActionKind::Direct,
    }
}

/// How many of the first entries have a sort of action.
pub open spec fn count_actions(
    entries: Seq<DeltaPlannedEntry>,
    count: int,
    kind: DeltaActionKind,
) -> int
    decreases count,
{
    if count <= 0 {
        0
    } else {
        count_actions(entries, count - 1, kind) + if kind_of(entries[count - 1].action) == kind {
            1int
        } else {
            0
        }
    }
}

/// Most window bytes so far.
pub open spec fn peak_window(
    entries: Seq<DeltaPlannedEntry>,
    count: int,
    options: DeltaPackOptions,
) -> int
    decreases count,
{
    if count <= 0 {
        0
    } else {
        let before = peak_window(entries, count - 1, options);
        let now = window_bytes(window_before(entries, count, options));
        if now > before {
            now
        } else {
            before
        }
    }
}

/// The counters of the first entries.
pub open spec fn report_of(
    report: DeltaPlanningReport,
    entries: Seq<DeltaPlannedEntry>,
    count: int,
    options: DeltaPackOptions,
) -> bool {
    &&& report.reused_entries == count_actions(entries, count, DeltaActionKind::Reuse)
    &&& report.generated_entries == count_actions(entries, count, DeltaActionKind::Generated)
    &&& report.direct_entries == count_actions(entries, count, DeltaActionKind::Direct)
    &&& report.peak_retained_base_bytes == peak_window(entries, count, options)
    &&& report.work_exhausted == work_stopped(entries, count)
    &&& report.candidate_comparisons <= options.max_candidate_comparisons
    &&& !report.work_exhausted ==> report.candidate_comparisons == compared_before(
        entries,
        count,
        options,
    )
}

/// Complete bounded delta plan.
#[derive(Debug)]
pub struct BoundedDeltaPackPlan {
    entries: Vec<DeltaPlannedEntry>,
    report: DeltaPlanningReport,
}

impl BoundedDeltaPackPlan {
    /// The entries in output order.
    pub closed spec fn spec_entries(self) -> Seq<DeltaPlannedEntry> {
        self.entries@
    }

    /// The counters.
    pub closed spec fn spec_report(self) -> DeltaPlanningReport {
        self.report
    }

    /// Borrow the entries in output order.
    pub fn entries(&self) -> (entries: &[DeltaPlannedEntry])
        ensures
            entries@ == self.spec_entries(),
    {
        self.entries.as_slice()
    }

    /// Return the counters.
    pub fn report(&self) -> (report: DeltaPlanningReport)
        ensures
            report == self.spec_report(),
    {
        self.report
    }
}

/// Later entries do not change what is known of the first ones.
proof fn lemma_plan_extends(
    entries: Seq<DeltaPlannedEntry>,
    entry: DeltaPlannedEntry,
    count: int,
    options: DeltaPackOptions,
)
    requires
        0 <= count <= entries.len(),
    ensures
        window_before(entries.push(entry), count, options) == window_before(
            entries,
            count,
            options,
        ),
        depths_before(entries.push(entry), count) == depths_before(entries, count),
        peak_window(entries.push(entry), count, options) == peak_window(entries, count, options),
        work_stopped(entries.push(entry), count) == work_stopped(entries, count),
        compared_before(entries.push(entry), count, options) == compared_before(
            entries,
            count,
            options,
        ),
        planning_work(entries.push(entry), count, options) == planning_work(
            entries,
            count,
            options,
        ),
        forall|kind: DeltaActionKind| #[trigger]
            count_actions(entries.push(entry), count, kind) == count_actions(entries, count, kind),
    decreases count,
{
    let more = entries.push(entry);
    if work_stopped(more, count) {
        let j = choose|j: int|
            0 <= j < count && (#[trigger] more[j]).action == DeltaEntryAction::Direct(
                DeltaFallbackReason::WorkBudget,
            );
        assert(entries[j] == more[j]);
    }
    if work_stopped(entries, count) {
        let j = choose|j: int|
            0 <= j < count && (#[trigger] entries[j]).action == DeltaEntryAction::Direct(
                DeltaFallbackReason::WorkBudget,
            );
        assert(entries[j] == more[j]);
    }
    if count > 0 {
        lemma_plan_extends(entries, entry, count - 1, options);
        assert(more[count - 1] == entries[count - 1]);
        assert(more.take(count - 1) =~= entries.take(count - 1));
        assert forall|kind: DeltaActionKind| #[trigger]
            count_actions(more, count, kind) == count_actions(entries, count, kind) by {
            assert(count_actions(more, count - 1, kind) == count_actions(entries, count - 1, kind));
        }
    }
}

/// What is planned for an entry stays when another is added.
proof fn lemma_planned_extends(
    objects: Seq<DeltaObjectInput>,
    entries: Seq<DeltaPlannedEntry>,
    entry: DeltaPlannedEntry,
    i: int,
    options: DeltaPackOptions,
)
    requires
        0 <= i < entries.len(),
        entry_planned(objects, entries, i, options),
    ensures
        entry_planned(objects, entries.push(entry), i, options),
{
    lemma_plan_extends(entries, entry, i, options);
    assert(entries.push(entry).take(i) =~= entries.take(i));
    assert(entries.push(entry)[i] == entries[i]);
}

/// Count the objects of a kind and find the oldest.
fn kind_in_window(window: &Vec<(usize, u64, ObjectKind)>, kind: ObjectKind) -> (found: (
    usize,
    usize,
))
    ensures
        found.0 == kind_count(window@, kind),
        found.1 == oldest_of(window@, kind, 0),
{
    let mut count: usize = 0;
    let mut oldest: usize = window.len();
    let mut at: usize = 0;
    assert(window@.take(0) =~= Seq::empty());
    proof {
        lemma_uncounted(window@.take(0), kind);
    }
    while at < window.len()
        invariant
            at <= window@.len(),
            count <= at,
            count == kind_count(window@.take(at as int), kind),
            oldest <= window@.len(),
            oldest < window@.len() ==> oldest < at && oldest == oldest_of(window@, kind, 0),
            oldest == window@.len() ==> oldest_of(window@, kind, 0) == oldest_of(
                window@,
                kind,
                at as int,
            ),
        decreases window.len() - at,
    {
        assert(window@.take(at + 1).drop_last() =~= window@.take(at as int));
        if window[at].2 == kind {
            count = count + 1;
            if oldest == window.len() {
                oldest = at;
            }
        }
        at = at + 1;
    }
    assert(window@.take(at as int) =~= window@);
    (count, oldest)
}

/// Put an object into the window of its kind.
fn slide_window(
    window: &mut Vec<(usize, u64, ObjectKind)>,
    held_bytes: &mut u64,
    index: usize,
    bytes: u64,
    kind: ObjectKind,
    options: DeltaPackOptions,
)
    requires
        options.valid(),
        window_bounded(old(window)@, index as int, options),
        *old(held_bytes) == window_bytes(old(window)@),
    ensures
        final(window)@ == window_after(old(window)@, index, bytes, kind, options),
        *final(held_bytes) == window_bytes(final(window)@),
{
    if bytes > options.max_retained_base_bytes {
        return;
    }
    let ghost first = window@;
    proof {
        lemma_thinned(first, kind, index as int, options);
    }
    let (count, oldest) = kind_in_window(window, kind);
    if count >= options.window {
        proof {
            lemma_window_push(first.remove(oldest as int), (0, 0, kind));
            lemma_bytes_remove(first, oldest as int);
        }
        let dropped: (usize, u64, ObjectKind) = window.remove(oldest);
        *held_bytes = *held_bytes - dropped.1;
    }
    let ghost before = window@;
    assert(before == thinned(first, kind, options));
    while window.len() > 0 && *held_bytes + bytes > options.max_retained_base_bytes
        invariant
            options.valid(),
            bytes <= options.max_retained_base_bytes,
            evicted(before, bytes as int, options) == evicted(window@, bytes as int, options),
            *held_bytes == window_bytes(window@),
            *held_bytes <= options.max_retained_base_bytes,
        decreases window.len(),
    {
        let ghost prior = window@;
        let dropped: (usize, u64, ObjectKind) = window.remove(0);
        proof {
            assert(window@ =~= prior.skip(1));
            lemma_window_push(window@, (0, 0, kind));
        }
        *held_bytes = *held_bytes - dropped.1;
    }
    proof {
        lemma_evicted(before, bytes as int, kind, index as int, options);
        lemma_window_push(window@, (index, bytes, kind));
    }
    window.push((index, bytes, kind));
    *held_bytes = *held_bytes + bytes;
}

/// Units charged for comparing a base with an object.
pub open spec fn scan_units(base: StoredObject, target: StoredObject) -> u64 {
    if base.data@.len() < target.data@.len() {
        base.data@.len() as u64
    } else {
        target.data@.len() as u64
    }
}

/// The work of a generated delta was granted: comparing the base, compressing the instructions,
/// and compressing the object to compare with.
pub open spec fn delta_granted<B: DeltaWorkBudget>(
    action: DeltaEntryAction,
    target: StoredObject,
    entries: Seq<DeltaPlannedEntry>,
) -> bool {
    match action {
        DeltaEntryAction::Generated(delta) => {
            &&& delta.spec_base_index() matches Some(base)
            &&& base < entries.len()
            &&& B::answers(scan_units(entries[base as int].object, target), true)
            &&& B::answers(delta.spec_instruction_size(), true)
            &&& B::answers(target.data@.len() as u64, true)
        },
        _ => true,
    }
}

/// The work of every generated delta was granted.
pub open spec fn deltas_granted<B: DeltaWorkBudget>(entries: Seq<DeltaPlannedEntry>) -> bool {
    forall|k: int|
        0 <= k < entries.len() ==> delta_granted::<B>(
            (#[trigger] entries[k]).action,
            entries[k].object,
            entries,
        )
}

/// Build a deterministic bounded plan.
///
/// Objects are compared only with compatible earlier objects in sliding windows per kind. Stored
/// deltas come before generation. Any budget, depth, quality or encoding rejection becomes a direct entry
/// and planning goes on.
pub fn plan_bounded_deltas<B: DeltaWorkBudget>(
    objects: Vec<DeltaObjectInput>,
    options: DeltaPackOptions,
    budget: &mut B,
) -> (result: Result<BoundedDeltaPackPlan, DeltaPackOptionsError>)
    ensures
        result is Ok <==> options.valid() && inputs_usable(objects@),
        result is Err ==> result->Err_0 == DeltaPackOptionsError::Invalid,
        result is Ok ==> {
            let plan = result->Ok_0;
            &&& plan.spec_entries().len() == objects@.len()
            &&& forall|i: int|
                0 <= i < objects@.len() ==> #[trigger] entry_planned(
                    objects@,
                    plan.spec_entries(),
                    i,
                    options,
                )
            &&& report_of(
                plan.spec_report(),
                plan.spec_entries(),
                plan.spec_entries().len() as int,
                options,
            )
            &&& forall|i: int|
                0 <= i < objects@.len() ==> #[trigger] stop_explained::<B>(
                    objects@,
                    plan.spec_entries(),
                    i,
                    options,
                )
            &&& plan.spec_report().work_exhausted ==> short_of(
                old(budget).allowance(),
                planning_work(plan.spec_entries(), objects@.len() as int, options),
            )
            &&& spent_within(
                old(budget).allowance(),
                final(budget).allowance(),
                planning_work(plan.spec_entries(), objects@.len() as int, options),
            )
            &&& deltas_granted::<B>(plan.spec_entries())
        },
{
    if let Err(error) = options.validate() {
        return Err(error);
    }
    if !check_inputs(&objects) {
        return Err(DeltaPackOptionsError::Invalid);
    }
    let ghost all = objects@;
    let total: usize = objects.len();
    let mut window: Vec<(usize, u64, ObjectKind)> = Vec::new();
    let mut held_bytes: u64 = 0;
    let mut planned: Vec<DeltaPlannedEntry> = Vec::new();
    let mut report: DeltaPlanningReport = DeltaPlanningReport::default();
    let mut depths: OidMap = OidMap::new();
    for input in walk: objects.into_iter()
        invariant
            walk.seq() == all,
            options.valid(),
            total == all.len(),
            planned@.len() == walk.index(),
            forall|i: int|
                0 <= i < planned@.len() ==> #[trigger] entry_planned(all, planned@, i, options),
            report_of(report, planned@, planned@.len() as int, options),
            forall|i: int|
                0 <= i < planned@.len() ==> #[trigger] stop_explained::<B>(
                    all,
                    planned@,
                    i,
                    options,
                ),
            report.work_exhausted ==> short_of(
                old(budget).allowance(),
                planning_work(planned@, planned@.len() as int, options),
            ),
            spent_within(
                old(budget).allowance(),
                budget.allowance(),
                planning_work(planned@, planned@.len() as int, options),
            ),
            deltas_granted::<B>(planned@),
            window@ == window_before(planned@, planned@.len() as int, options),
            window_bounded(window@, planned@.len() as int, options),
            held_bytes == window_bytes(window@),
            depths@ == depths_before(planned@, planned@.len() as int),
    {
        let ghost at = planned@.len() as int;
        let ghost before = planned@;
        let target_index: usize = planned.len();
        let mut input: DeltaObjectInput = input;
        let too_long: bool = match &input.path_hint {
            Some(path) => crate::admission::text_bytes(path) > options.max_path_hint_bytes,
            None => false,
        };
        if too_long {
            input.path_hint = None;
        }
        assert(input == trimmed_input(all[at], options));
        let target_size: usize = input.object.data.len();
        let target_kind: ObjectKind = input.object.kind;
        let mut depth: u16 = 0;
        let action: DeltaEntryAction = match input.stored {
            Some(stored) => {
                depth = stored_dependency_depth(stored.kind(), &depths);
                if depth <= options.max_depth {
                    report.reused_entries = report.reused_entries.saturating_add(1);
                    DeltaEntryAction::Reuse(stored)
                } else {
                    depth = 0;
                    DeltaEntryAction::Direct(DeltaFallbackReason::Depth)
                }
            },
            None => {
                let action: DeltaEntryAction = if report.work_exhausted {
                    DeltaEntryAction::Direct(DeltaFallbackReason::WorkBudget)
                } else if target_size == 0 {
                    DeltaEntryAction::Direct(DeltaFallbackReason::NoCandidate)
                } else {
                    let target_input = DeltaObjectInput {
                        oid: input.oid,
                        object: input.object,
                        path_hint: input.path_hint,
                        stored: None,
                    };
                    let action = select_generated_delta(
                        &target_input,
                        &planned,
                        &window,
                        &depths,
                        options,
                        budget,
                        &mut report,
                    );
                    input.object = target_input.object;
                    input.path_hint = target_input.path_hint;
                    action
                };
                if let DeltaEntryAction::Generated(delta) = &action {
                    depth = delta.depth;
                }
                action
            },
        };
        if let DeltaEntryAction::Direct(_) = &action {
            report.direct_entries = report.direct_entries.saturating_add(1);
        }
        depths.insert(input.oid, depth as u64);
        planned.push(
            DeltaPlannedEntry {
                oid: input.oid,
                object: input.object,
                path_hint: input.path_hint,
                action,
            },
        );
        slide_window(
            &mut window,
            &mut held_bytes,
            target_index,
            target_size as u64,
            target_kind,
            options,
        );
        if held_bytes > report.peak_retained_base_bytes {
            report.peak_retained_base_bytes = held_bytes;
        }
        proof {
            let entry = planned@[at];
            assert(planned@ == before.push(entry));
            lemma_plan_extends(before, entry, at, options);
            assert(planned@.take(at) =~= before);
            assert forall|k: int| 0 <= k < planned@.len() implies delta_granted::<B>(
                (#[trigger] planned@[k]).action,
                planned@[k].object,
                planned@,
            ) by {
                if k < at {
                    assert(planned@[k] == before[k]);
                }
                if let DeltaEntryAction::Generated(delta) = planned@[k].action {
                    assert(planned@[delta.spec_base_index()->0 as int]
                        == before[delta.spec_base_index()->0 as int]);
                }
            }
            assert forall|i: int| 0 <= i < planned@.len() implies #[trigger] entry_planned(
                all,
                planned@,
                i,
                options,
            ) by {
                if i < at {
                    lemma_planned_extends(all, before, entry, i, options);
                } else {
                    assert(planned@.take(at) =~= before);
                }
            }
            assert forall|i: int| 0 <= i < planned@.len() implies #[trigger] stop_explained::<B>(
                all,
                planned@,
                i,
                options,
            ) by {
                lemma_plan_extends(before, entry, i, options);
                if i < at {
                    assert(stop_explained::<B>(all, before, i, options));
                    assert(planned@.take(i) =~= before.take(i));
                    assert(planned@[i] == before[i]);
                }
            }
            lemma_work_positive(before, at, options);
            lemma_scan_positive(entry.object, before, window_before(before, at, options), 0);
            lemma_window_step(
                window_before(before, at, options),
                target_index,
                target_size as u64,
                target_kind,
                options,
            );
            lemma_counts_bounded(before, at);
            assert(at < total);
            let kind = kind_of(entry.action);
            assert forall|k: DeltaActionKind| #[trigger]
                count_actions(planned@, at + 1, k) == count_actions(before, at, k) + if kind == k {
                    1int
                } else {
                    0
                } by {
                assert(count_actions(planned@, at, k) == count_actions(before, at, k));
            }
            assert(work_stopped(planned@, at + 1) <==> work_stopped(before, at) || entry.action
                == DeltaEntryAction::Direct(DeltaFallbackReason::WorkBudget)) by {
                if entry.action == DeltaEntryAction::Direct(DeltaFallbackReason::WorkBudget) {
                    assert(planned@[at].action == entry.action);
                }
                if work_stopped(planned@, at + 1) && !work_stopped(planned@, at) {
                    let j = choose|j: int|
                        0 <= j < at + 1 && (#[trigger] planned@[j]).action
                            == DeltaEntryAction::Direct(DeltaFallbackReason::WorkBudget);
                    assert(j == at);
                }
                if work_stopped(before, at) {
                    let j = choose|j: int|
                        0 <= j < at && (#[trigger] before[j]).action == DeltaEntryAction::Direct(
                            DeltaFallbackReason::WorkBudget,
                        );
                    assert(planned@[j] == before[j]);
                }
            }
        }
    }
    Ok(BoundedDeltaPackPlan { entries: planned, report })
}

/// No comparison takes less than nothing.
proof fn lemma_scan_positive(
    target: StoredObject,
    entries: Seq<DeltaPlannedEntry>,
    window: Seq<(usize, u64, ObjectKind)>,
    at: int,
)
    requires
        0 <= at,
    ensures
        scan_work(target, entries, window, at) >= 0,
    decreases window.len() - at,
{
    if at < window.len() {
        lemma_scan_positive(target, entries, window, at + 1);
    }
}

/// No entry takes less than nothing.
proof fn lemma_work_positive(
    entries: Seq<DeltaPlannedEntry>,
    count: int,
    options: DeltaPackOptions,
)
    ensures
        planning_work(entries, count, options) >= 0,
    decreases count,
{
    if count > 0 {
        lemma_work_positive(entries, count - 1, options);
        lemma_scan_positive(
            entries[count - 1].object,
            entries.take(count - 1),
            window_before(entries, count - 1, options),
            0,
        );
    }
}

/// A count is at most the number of entries.
proof fn lemma_counts_bounded(entries: Seq<DeltaPlannedEntry>, count: int)
    requires
        0 <= count,
    ensures
        forall|kind: DeltaActionKind|
            0 <= #[trigger] count_actions(entries, count, kind) <= count,
    decreases count,
{
    if count > 0 {
        lemma_counts_bounded(entries, count - 1);
        assert forall|kind: DeltaActionKind|
            0 <= #[trigger] count_actions(entries, count, kind) <= count by {
            assert(0 <= count_actions(entries, count - 1, kind) <= count - 1);
        }
    }
}

/// Each comparison takes at most the length of the target.
proof fn lemma_scan_bounded(
    target: StoredObject,
    entries: Seq<DeltaPlannedEntry>,
    window: Seq<(usize, u64, ObjectKind)>,
    at: int,
)
    requires
        0 <= at <= window.len(),
        target.data@.len() <= u64::MAX,
    ensures
        scan_work(target, entries, window, at) <= (window.len() - at) * target.data@.len(),
    decreases window.len() - at,
{
    let length = target.data@.len() as int;
    let rest = window.len() - at;
    if at < window.len() {
        lemma_scan_bounded(target, entries, window, at + 1);
        assert(rest * length == (rest - 1) * length + length) by (nonlinear_arith);
    } else {
        assert(rest * length == 0) by (nonlinear_arith)
            requires
                rest == 0,
        ;
    }
}

/// Planning objects of at most `longest` bytes takes no more work than this: a budget that has as
/// much is not exhausted.
pub proof fn law_planning_work_is_bounded(
    entries: Seq<DeltaPlannedEntry>,
    count: int,
    longest: int,
    options: DeltaPackOptions,
)
    requires
        options.valid(),
        0 <= count <= entries.len(),
        entries.len() <= usize::MAX,
        0 <= longest <= u64::MAX,
        forall|i: int| 0 <= i < count ==> (#[trigger] entries[i]).object.data@.len() <= longest,
    ensures
        planning_work(entries, count, options) <= count * (count * longest
            + options.max_instruction_bytes + longest),
    decreases count,
{
    let fixed = options.max_instruction_bytes + longest;
    if count > 0 {
        let before = count - 1;
        law_planning_work_is_bounded(entries, before, longest, options);
        law_window_stays_bounded(entries, before, options);
        let window = window_before(entries, before, options);
        let target = entries[before].object;
        assert(window.len() <= before) by {
            if window.len() > before {
                lemma_places_apart(window, window.len() - 1);
            }
        }
        lemma_scan_bounded(target, entries.take(before), window, 0);
        assert(window.len() * target.data@.len() <= before * longest) by (nonlinear_arith)
            requires
                0 <= window.len() <= before,
                0 <= target.data@.len() <= longest,
        ;
        assert(before * (before * longest + fixed) + before * longest + fixed <= count * (count
            * longest + fixed)) by (nonlinear_arith)
            requires
                count == before + 1,
                before >= 0,
                longest >= 0,
                fixed >= 0,
        ;
    } else {
        assert(count * (count * longest + fixed) == 0) by (nonlinear_arith)
            requires
                count == 0,
        ;
    }
}

/// The object at place `k` of the windows stands at `k` or later among all.
proof fn lemma_places_apart(window: Seq<(usize, u64, ObjectKind)>, k: int)
    requires
        0 <= k < window.len(),
        forall|i: int, j: int|
            #![trigger window[i], window[j]]
            0 <= i < j < window.len() ==> window[i].0 < window[j].0,
    ensures
        window[k].0 >= k,
    decreases k,
{
    if k > 0 {
        lemma_places_apart(window, k - 1);
        assert(window[k - 1].0 < window[k].0);
    }
}

/// The delta of a generated entry.
pub open spec fn delta_of(entry: DeltaPlannedEntry) -> GeneratedDeltaPlan
    recommends
        entry.action is Generated,
{
    entry.action->Generated_0
}

/// Instructions are valid for a base and a target of these contents, and turn one into the other.
pub open spec fn turns_into(instructions: Seq<u8>, base: Seq<u8>, target: Seq<u8>) -> bool {
    &&& delta_valid(instructions, base.len() as u64, target.len() as u64)
    &&& exists|body: int|
        #[trigger] delta_header(instructions, base.len() as u64, target.len() as u64, body)
            && delta_apply(base, instructions, body) == Some(target)
}

/// A generated delta has an earlier entry of the same kind as its base, its compressed instructions
/// turn that base into the object, and its chain is no deeper than allowed.
pub proof fn law_generated_delta_makes_object(
    objects: Seq<DeltaObjectInput>,
    entries: Seq<DeltaPlannedEntry>,
    i: int,
    options: DeltaPackOptions,
)
    requires
        options.valid(),
        0 <= i < entries.len(),
        entries.len() <= usize::MAX,
        entry_planned(objects, entries, i, options),
        entries[i].action is Generated,
        forall|k: int| 0 <= k <= i ==> (#[trigger] entries[k]).object.data@.len() <= u64::MAX,
    ensures
        ({
            let delta = delta_of(entries[i]);
            let base = entries[delta.spec_base_index()->0 as int];
            &&& delta.spec_base_index() is Some
            &&& delta.spec_base_index()->0 < i
            &&& delta.spec_base() == base.oid
            &&& base.object.kind == entries[i].object.kind
            &&& base.oid != entries[i].oid
            &&& delta.spec_depth() <= options.max_depth
            &&& delta.spec_depth() == delta_depth(depths_before(entries, i), base.oid)
            &&& zlib_decoded(delta.spec_compressed()) is Some
            &&& zlib_decoded(delta.spec_compressed())->0.len() == delta.spec_instruction_size()
            &&& turns_into(
                zlib_decoded(delta.spec_compressed())->0,
                base.object.data@,
                entries[i].object.data@,
            )
        }),
{
    let input = trimmed_input(objects[i], options);
    let earlier = entries.take(i);
    let window = window_before(entries, i, options);
    let depths = depths_before(entries, i);
    let action = entries[i].action;
    assert(best_leads_to(action, input, earlier, window, depths, options));
    let best = choose|best: Candidate| #[trigger]
        best_of(Some(best), input, earlier, window, 0, depths, options) && candidate_leads_to(
            action,
            best,
            input,
            earlier,
            options,
        );
    let k = choose|k: int|
        0 <= k < window.len() && qualifies(
            best,
            input,
            earlier,
            (#[trigger] window[k]).0 as int,
            depths,
            options,
        );
    law_window_stays_bounded(entries, i, options);
    assert(window[k].0 < i);
    let base = entries[best.index as int];
    assert(earlier[best.index as int] == base);
    let data = base.object.data@;
    let target = input.object.data@;
    assert(data.take(0) =~= target.take(0));
    lemma_shared(data, target, 0);
    law_prefix_delta_makes_target(data, target, best.prefix as int);
    let instructions = instructions_of(best, input, earlier);
    let body = (varint(data.len()) + varint(target.len())).len() as int;
    assert(delta_header(instructions, data.len() as u64, target.len() as u64, body));
    assert(turns_into(instructions, data, target));
}

/// Every entry is reused, generated or direct, and counted once.
pub proof fn law_actions_add_up(entries: Seq<DeltaPlannedEntry>, count: int)
    requires
        0 <= count <= entries.len(),
    ensures
        count_actions(entries, count, DeltaActionKind::Reuse) + count_actions(
            entries,
            count,
            DeltaActionKind::Generated,
        ) + count_actions(entries, count, DeltaActionKind::Direct) == count,
    decreases count,
{
    if count > 0 {
        law_actions_add_up(entries, count - 1);
    }
}

/// Once the work budget is exhausted no more deltas are generated.
pub proof fn law_exhausted_work_generates_nothing(
    objects: Seq<DeltaObjectInput>,
    entries: Seq<DeltaPlannedEntry>,
    i: int,
    j: int,
    options: DeltaPackOptions,
)
    requires
        0 <= i < j < entries.len(),
        entry_planned(objects, entries, j, options),
        entries[i].action == DeltaEntryAction::Direct(DeltaFallbackReason::WorkBudget),
    ensures
        entries[j].action !is Generated,
{
    assert(work_stopped(entries, j));
}

/// What the plan of a generated delta is, given where earlier objects stand in the output.
pub open spec fn generated_plan(
    plan: PackEntryPlan,
    delta: GeneratedDeltaPlan,
    offsets: Map<ObjectId, u64>,
    capabilities: PackReuseCapabilities,
    output_offset: u64,
) -> bool {
    if delta.spec_base_index() is None || !offsets.dom().contains(delta.spec_base()) {
        plan == PackEntryPlan::RecompressFallback(PackRecompressReason::UnprovenBase)
    } else if offsets[delta.spec_base()] >= output_offset {
        plan == PackEntryPlan::RecompressFallback(PackRecompressReason::InvalidOutputDistance)
    } else if capabilities.ofs_delta {
        plan matches PackEntryPlan::OfsDelta(entry) && entry.result_kind
            == delta.spec_result_kind() && entry.result_size == delta.spec_result_size()
            && entry.declared_size == delta.spec_instruction_size() && entry.base_output_offset
            == offsets[delta.spec_base()] && entry.compressed@ == delta.spec_compressed()
    } else {
        plan matches PackEntryPlan::RefDelta(entry) && entry.result_kind
            == delta.spec_result_kind() && entry.result_size == delta.spec_result_size()
            && entry.declared_size == delta.spec_instruction_size() && entry.base
            == delta.spec_base() && entry.compressed@ == delta.spec_compressed()
    }
}

/// Build the plan of a generated delta.
///
/// An OFS distance uses the base's actual output offset; a REF-delta is used where OFS is not
/// negotiated. A delta whose base is not earlier in the output is compressed directly.
fn generated_entry_plan(
    delta: &GeneratedDeltaPlan,
    dependencies: &PackDependencySet,
    capabilities: PackReuseCapabilities,
    output_offset: u64,
) -> (plan: PackEntryPlan)
    ensures
        generated_plan(plan, *delta, dependencies.offsets(), capabilities, output_offset),
{
    if delta.base_index.is_none() {
        return PackEntryPlan::RecompressFallback(PackRecompressReason::UnprovenBase);
    }
    let base_offset: u64 = match dependencies.outgoing_offset_for(delta.base) {
        Some(offset) => offset,
        None => {
            return PackEntryPlan::RecompressFallback(PackRecompressReason::UnprovenBase);
        },
    };
    if base_offset >= output_offset {
        return PackEntryPlan::RecompressFallback(PackRecompressReason::InvalidOutputDistance);
    }
    let compressed: Vec<u8> = copy_range(delta.compressed.as_slice(), 0, delta.compressed.len());
    assert(compressed@ =~= delta.compressed@);
    if capabilities.ofs_delta {
        return PackEntryPlan::OfsDelta(
            ReusedOfsDeltaEntry {
                result_kind: delta.result_kind,
                result_size: delta.result_size,
                declared_size: delta.instruction_size,
                base_output_offset: base_offset,
                compressed,
            },
        );
    }
    PackEntryPlan::RefDelta(
        ReusedRefDeltaEntry {
            result_kind: delta.result_kind,
            result_size: delta.result_size,
            declared_size: delta.instruction_size,
            base: delta.base,
            compressed,
        },
    )
}

/// Execution counters.
#[derive(Clone, Copy, Debug, PartialEq, Eq, Structural)]
pub struct DeltaPackWriteReport {
    /// Completed entries.
    pub written_entries: u64,
    /// Decoded bytes.
    pub decoded_bytes: u64,
    /// Compressed bytes.
    pub compressed_bytes: u64,
}

/// A sum that stays at the largest number.
pub open spec fn capped_sum(left: u64, right: u64) -> u64 {
    if left + right > u64::MAX {
        u64::MAX
    } else {
        (left + right) as u64
    }
}

impl DeltaPackWriteReport {
    /// The counters after one more entry.
    pub open spec fn with_entry(self, entry: PackObjectWriteReport) -> DeltaPackWriteReport {
        DeltaPackWriteReport {
            written_entries: capped_sum(self.written_entries, 1),
            decoded_bytes: capped_sum(self.decoded_bytes, entry.decoded_bytes),
            compressed_bytes: capped_sum(self.compressed_bytes, entry.compressed_bytes),
        }
    }

    /// Count one entry.
    pub fn observe(&mut self, entry: PackObjectWriteReport)
        ensures
            *final(self) == old(self).with_entry(entry),
    {
        self.written_entries = self.written_entries.saturating_add(1);
        self.decoded_bytes = self.decoded_bytes.saturating_add(entry.decoded_bytes);
        self.compressed_bytes = self.compressed_bytes.saturating_add(entry.compressed_bytes);
    }
}

impl Default for DeltaPackWriteReport {
    fn default() -> (report: Self)
        ensures
            report == (DeltaPackWriteReport {
                written_entries: 0,
                decoded_bytes: 0,
                compressed_bytes: 0,
            }),
    {
        DeltaPackWriteReport { written_entries: 0, decoded_bytes: 0, compressed_bytes: 0 }
    }
}

/// Output offsets of the first entries: the first entry of an identity counts.
pub open spec fn offsets_before(
    entries: Seq<DeltaPlannedEntry>,
    cuts: Seq<int>,
    count: int,
) -> Map<ObjectId, u64>
    decreases count,
{
    if count <= 0 {
        Map::empty()
    } else {
        let before = offsets_before(entries, cuts, count - 1);
        let oid = entries[count - 1].oid;
        if before.dom().contains(oid) {
            before
        } else {
            before.insert(oid, cuts[count - 1] as u64)
        }
    }
}

/// The plan was executed: reused bytes, or the object compressed directly.
pub open spec fn plan_executed(
    plan: PackEntryPlan,
    object: StoredObject,
    before: Seq<u8>,
    after: Seq<u8>,
) -> bool {
    if plan is RecompressFallback {
        object_appended(before, after, object.kind, object.data@)
    } else {
        after == before + reused_entry_bytes(plan, before.len() as int)
    }
}

/// What was appended for a stored representation.
pub open spec fn reuse_written(
    source: ValidatedPackEntry,
    object: StoredObject,
    offsets: Map<ObjectId, u64>,
    capabilities: PackReuseCapabilities,
    before: Seq<u8>,
    after: Seq<u8>,
) -> bool {
    exists|plan: PackEntryPlan| #[trigger]
        plan_executed(plan, object, before, after) && plan.follows(
            source,
            offsets,
            capabilities,
            before.len() as u64,
        )
}

/// What was appended for a generated delta.
pub open spec fn delta_written(
    delta: GeneratedDeltaPlan,
    object: StoredObject,
    offsets: Map<ObjectId, u64>,
    capabilities: PackReuseCapabilities,
    before: Seq<u8>,
    after: Seq<u8>,
) -> bool {
    exists|plan: PackEntryPlan| #[trigger]
        plan_executed(plan, object, before, after) && generated_plan(
            plan,
            delta,
            offsets,
            capabilities,
            before.len() as u64,
        )
}

/// What was appended for an entry.
pub open spec fn entry_written(
    entry: DeltaPlannedEntry,
    offsets: Map<ObjectId, u64>,
    capabilities: PackReuseCapabilities,
    before: Seq<u8>,
    after: Seq<u8>,
) -> bool {
    match entry.action {
        DeltaEntryAction::Reuse(source) => reuse_written(
            source,
            entry.object,
            offsets,
            capabilities,
            before,
            after,
        ),
        DeltaEntryAction::Generated(delta) => delta_written(
            delta,
            entry.object,
            offsets,
            capabilities,
            before,
            after,
        ),
        DeltaEntryAction::Direct(_) => object_appended(
            before,
            after,
            entry.object.kind,
            entry.object.data@,
        ),
    }
}

/// The first entries stand between these cuts of the output.
pub open spec fn entries_written(
    entries: Seq<DeltaPlannedEntry>,
    capabilities: PackReuseCapabilities,
    output: Seq<u8>,
    cuts: Seq<int>,
    count: int,
) -> bool {
    &&& cuts.len() == count + 1
    &&& cuts[count] == output.len()
    &&& forall|k: int| 0 <= k < count ==> 0 <= #[trigger] cuts[k] <= output.len()
    &&& forall|k: int|
        0 <= k < count ==> entry_written(
            #[trigger] entries[k],
            offsets_before(entries, cuts, k),
            capabilities,
            output.take(cuts[k]),
            output.take(cuts[k + 1]),
        )
}

/// The output grew from `before` by the first `count` entries, which stand between these cuts.
pub open spec fn grown_by(
    entries: Seq<DeltaPlannedEntry>,
    capabilities: PackReuseCapabilities,
    before: Seq<u8>,
    after: Seq<u8>,
    cuts: Seq<int>,
    count: int,
) -> bool {
    &&& entries_written(entries, capabilities, after, cuts, count)
    &&& cuts[0] == before.len()
    &&& before.is_prefix_of(after)
}

/// A writer that has taken the first `count` entries of a plan.
pub open spec fn stage_reached<S: PackChunkSink, P: CancellationProbe>(
    before: IncrementalPackWriter<S, P>,
    stage: IncrementalPackWriter<S, P>,
    entries: Seq<DeltaPlannedEntry>,
    capabilities: PackReuseCapabilities,
    count: int,
) -> bool {
    &&& count == 0 ==> stage == before
    &&& stage.spec_state() is Streaming
    &&& stage.spec_planned() == before.spec_planned()
    &&& stage.spec_written() == before.spec_written() + count
    &&& exists|cuts: Seq<int>| #[trigger]
        grown_by(entries, capabilities, before.output(), stage.output(), cuts, count)
}

/// Why a retained representation cannot be written at this stage.
pub open spec fn retained_unwritten<S: PackChunkSink, P: CancellationProbe>(
    plan: PackEntryPlan,
    stage: IncrementalPackWriter<S, P>,
    checks: u64,
    error: PackWriterError,
) -> bool {
    !(plan is RecompressFallback) && reuse_explained::<S, P>(
        plan,
        stage.output().len() as int,
        stage.spec_room(),
        stage.spec_chunk(),
        stage.spec_report().decoded_bytes,
        checks,
        error,
    )
}

/// Why an entry cannot be written at this stage: no further one was planned, its object cannot be
/// written, or what is retained of it cannot.
pub open spec fn entry_unwritten<S: PackChunkSink, P: CancellationProbe>(
    entry: DeltaPlannedEntry,
    stage: IncrementalPackWriter<S, P>,
    checks: u64,
    error: PackWriterError,
) -> bool {
    if stage.spec_written() >= stage.spec_planned() {
        error == PackWriterError::TooManyObjects
    } else {
        ||| object_explained::<S, P>(
            entry.object,
            stage.spec_room(),
            stage.spec_chunk(),
            stage.spec_report().decoded_bytes,
            checks,
            error,
        )
        ||| !(entry.action is Direct) && exists|plan: PackEntryPlan| #[trigger]
            retained_unwritten(plan, stage, checks, error)
    }
}

/// The output grew from `before` by all entries, in order.
pub open spec fn plan_written(
    entries: Seq<DeltaPlannedEntry>,
    capabilities: PackReuseCapabilities,
    before: Seq<u8>,
    after: Seq<u8>,
) -> bool {
    exists|cuts: Seq<int>| #[trigger]
        entries_written(entries, capabilities, after, cuts, entries.len() as int) && cuts[0]
            == before.len() && before.len() <= after.len() && after.take(before.len() as int)
            == before
}

/// Earlier cuts decide the offsets.
proof fn lemma_offsets_extend(
    entries: Seq<DeltaPlannedEntry>,
    cuts: Seq<int>,
    cut: int,
    count: int,
)
    requires
        0 <= count <= cuts.len(),
    ensures
        offsets_before(entries, cuts.push(cut), count) == offsets_before(entries, cuts, count),
    decreases count,
{
    if count > 0 {
        lemma_offsets_extend(entries, cuts, cut, count - 1);
        assert(cuts.push(cut)[count - 1] == cuts[count - 1]);
    }
}

/// One more entry extends what was written.
proof fn lemma_entry_appended(
    entries: Seq<DeltaPlannedEntry>,
    capabilities: PackReuseCapabilities,
    before: Seq<u8>,
    after: Seq<u8>,
    cuts: Seq<int>,
    count: int,
)
    requires
        0 <= count < entries.len(),
        entries_written(entries, capabilities, before, cuts, count),
        before.len() <= after.len(),
        after.take(before.len() as int) == before,
        entry_written(
            entries[count],
            offsets_before(entries, cuts, count),
            capabilities,
            before,
            after,
        ),
    ensures
        entries_written(
            entries,
            capabilities,
            after,
            cuts.push(after.len() as int),
            count + 1,
        ),
{
    let more = cuts.push(after.len() as int);
    assert forall|k: int| 0 <= k < count + 1 implies 0 <= #[trigger] more[k] <= after.len() by {
        assert(more[k] == cuts[k]);
    }
    assert forall|k: int| 0 <= k < count + 1 implies entry_written(
        #[trigger] entries[k],
        offsets_before(entries, more, k),
        capabilities,
        after.take(more[k]),
        after.take(more[k + 1]),
    ) by {
        lemma_offsets_extend(entries, cuts, after.len() as int, k);
        assert(more[k] == cuts[k]);
        if k < count {
            assert(more[k + 1] == cuts[k + 1]);
            if k + 1 < count {
                assert(cuts[k + 1] <= before.len());
            }
            assert(after.take(cuts[k]) =~= before.take(cuts[k]));
            assert(after.take(cuts[k + 1]) =~= before.take(cuts[k + 1]));
        } else {
            assert(after.take(cuts[k]) =~= before);
            assert(after.take(after.len() as int) =~= after);
        }
    }
}

/// Writing an entry only appends.
proof fn lemma_written_appends(
    entry: DeltaPlannedEntry,
    offsets: Map<ObjectId, u64>,
    capabilities: PackReuseCapabilities,
    before: Seq<u8>,
    after: Seq<u8>,
)
    requires
        entry_written(entry, offsets, capabilities, before, after),
    ensures
        before.len() <= after.len(),
        after.take(before.len() as int) == before,
{
    if exists|plan: PackEntryPlan| plan_executed(plan, entry.object, before, after) {
        let plan = choose|plan: PackEntryPlan| plan_executed(plan, entry.object, before, after);
        if plan is RecompressFallback {
            lemma_object_appends(before, after, entry.object.kind, entry.object.data@);
        } else {
            assert(after.take(before.len() as int) =~= before);
        }
    } else {
        lemma_object_appends(before, after, entry.object.kind, entry.object.data@);
    }
}

/// A direct entry only appends.
proof fn lemma_object_appends(before: Seq<u8>, after: Seq<u8>, kind: ObjectKind, data: Seq<u8>)
    requires
        object_appended(before, after, kind, data),
    ensures
        before.len() <= after.len(),
        after.take(before.len() as int) == before,
{
    let front = before + crate::varint::entry_header(kind.code(), data.len());
    assert(front.take(before.len() as int) =~= before);
    assert(after.take(before.len() as int) =~= after.take(front.len() as int).take(
        before.len() as int,
    ));
}

impl BoundedDeltaPackPlan {
    /// Write one entry.
    fn write_entry<S: PackChunkSink, P: CancellationProbe>(
        entry: &DeltaPlannedEntry,
        dependencies: &PackDependencySet,
        writer: &mut IncrementalPackWriter<S, P>,
        capabilities: PackReuseCapabilities,
        output_offset: u64,
    ) -> (result: Result<PackObjectWriteReport, PackWriterFailure>)
        requires
            old(writer).wf(),
            old(writer).spec_state() is Streaming ==> output_offset == old(writer).output().len(),
        ensures
            final(writer).wf(),
            final(writer).spec_planned() == old(writer).spec_planned(),
            final(writer).spec_algo() == old(writer).spec_algo(),
            old(writer).spec_state() !is Streaming ==> *final(writer) == *old(writer) && result is Err
                && result->Err_0.error == PackWriterError::InvalidState(old(writer).spec_state()),
            old(writer).spec_state() is Streaming ==> (result matches Err(
                failure,
            ) ==> entry_unwritten(
                *entry,
                *old(writer),
                final(writer).spec_report().cancellation.checks,
                failure.error,
            ) && final(writer).spec_state() is Aborted && stream_ended(
                final(writer).spec_sink(),
                failure.error,
            )),
            match result {
                Ok(report) => {
                    &&& final(writer).spec_state() is Streaming
                    &&& final(writer).spec_written() == old(writer).spec_written() + 1
                    &&& final(writer).counted(*old(writer), report)
                    &&& entry_written(
                        *entry,
                        dependencies.offsets(),
                        capabilities,
                        old(writer).output(),
                        final(writer).output(),
                    )
                },
                Err(failure) => {
                    &&& failure.report == final(writer).spec_report()
                    &&& final(writer).spec_written() == old(writer).spec_written()
                },
            },
    {
        match &entry.action {
            DeltaEntryAction::Reuse(source) => {
                let plan = PackEntryPlan::from_validated_entry(
                    source,
                    dependencies,
                    capabilities,
                    output_offset,
                );
                let ghost before = writer.output();
                let ghost stage = *writer;
                let result = writer.write_entry_plan(&plan, Some(&entry.object));
                proof {
                    if result is Err && stage.spec_state() is Streaming && stage.spec_written()
                        < stage.spec_planned() && !(plan is RecompressFallback) {
                        assert(retained_unwritten(
                            plan,
                            stage,
                            writer.spec_report().cancellation.checks,
                            result->Err_0.error,
                        ));
                    }
                    if result is Ok {
                        assert(output_offset == before.len() as u64);
                        assert(plan_executed(plan, entry.object, before, writer.output()));
                    }
                }
                result
            },
            DeltaEntryAction::Generated(delta) => {
                let plan = generated_entry_plan(delta, dependencies, capabilities, output_offset);
                let ghost before = writer.output();
                let ghost stage = *writer;
                let result = writer.write_entry_plan(&plan, Some(&entry.object));
                proof {
                    if result is Err && stage.spec_state() is Streaming && stage.spec_written()
                        < stage.spec_planned() && !(plan is RecompressFallback) {
                        assert(retained_unwritten(
                            plan,
                            stage,
                            writer.spec_report().cancellation.checks,
                            result->Err_0.error,
                        ));
                    }
                    if result is Ok {
                        assert(output_offset == before.len() as u64);
                        assert(plan_executed(plan, entry.object, before, writer.output()));
                    }
                }
                result
            },
            DeltaEntryAction::Direct(_) => writer.write_object(&entry.object),
        }
    }

    /// Execute every action through a writer that has been started.
    ///
    /// Stored reuse is checked again against actual output offsets; a stale plan is compressed
    /// directly before its entry begins.
    pub fn write_to<S: PackChunkSink, P: CancellationProbe>(
        &self,
        writer: &mut IncrementalPackWriter<S, P>,
        capabilities: PackReuseCapabilities,
    ) -> (result: Result<DeltaPackWriteReport, PackWriterFailure>)
        requires
            old(writer).wf(),
        ensures
            final(writer).wf(),
            final(writer).spec_planned() == old(writer).spec_planned(),
            final(writer).spec_algo() == old(writer).spec_algo(),
            match result {
                Ok(report) => {
                    &&& self.spec_entries().len() > 0 ==> final(writer).spec_state() is Streaming
                    &&& self.spec_entries().len() == 0 ==> *final(writer) == *old(writer)
                    &&& final(writer).spec_written() == old(writer).spec_written()
                        + self.spec_entries().len()
                    &&& report.written_entries == self.spec_entries().len()
                    &&& final(writer).spec_report().decoded_bytes
                        == old(writer).spec_report().decoded_bytes + report.decoded_bytes
                    &&& final(writer).spec_report().compressed_bytes
                        == old(writer).spec_report().compressed_bytes + report.compressed_bytes
                    &&& plan_written(
                        self.spec_entries(),
                        capabilities,
                        old(writer).output(),
                        final(writer).output(),
                    )
                },
                Err(failure) => {
                    let count = final(writer).spec_written() - old(writer).spec_written();
                    &&& failure.report == final(writer).spec_report()
                    &&& 0 <= count < self.spec_entries().len()
                    &&& old(writer).spec_state() is Streaming ==> final(writer).spec_state() is Aborted
                        && stream_ended(final(writer).spec_sink(), failure.error)
                    &&& if old(writer).spec_state() is Streaming {
                        exists|stage: IncrementalPackWriter<S, P>| #[trigger]
                            entry_unwritten(
                                self.spec_entries()[count],
                                stage,
                                final(writer).spec_report().cancellation.checks,
                                failure.error,
                            ) && stage_reached(
                                *old(writer),
                                stage,
                                self.spec_entries(),
                                capabilities,
                                count,
                            )
                    } else {
                        &&& *final(writer) == *old(writer)
                        &&& failure.error == PackWriterError::InvalidState(
                            old(writer).spec_state(),
                        )
                    }
                },
            },
    {
        let ghost entries = self.entries@;
        let ghost start = writer.output();
        let ghost mut cuts: Seq<int> = seq![start.len() as int];
        let mut dependencies = PackDependencySet::new();
        let mut report = DeltaPackWriteReport::default();
        let total: usize = self.entries.len();
        let mut at: usize = 0;
        proof {
            assert(start.take(start.len() as int) =~= start);
        }
        while at < total
            invariant
                at <= total,
                total == entries.len(),
                entries == self.entries@,
                writer.wf(),
                writer.spec_planned() == old(writer).spec_planned(),
                writer.spec_algo() == old(writer).spec_algo(),
                at == 0 ==> *writer == *old(writer),
                at > 0 ==> writer.spec_state() is Streaming && old(writer).spec_state() is Streaming,
                writer.spec_written() == old(writer).spec_written() + at,
                report.written_entries == at,
                writer.spec_report().decoded_bytes == old(writer).spec_report().decoded_bytes
                    + report.decoded_bytes,
                writer.spec_report().compressed_bytes == old(writer).spec_report().compressed_bytes
                    + report.compressed_bytes,
                start == old(writer).output(),
                entries_written(entries, capabilities, writer.output(), cuts, at as int),
                cuts[0] == start.len(),
                start.len() <= writer.output().len(),
                writer.output().take(start.len() as int) == start,
                dependencies.offsets() == offsets_before(entries, cuts, at as int),
            decreases total - at,
        {
            let ghost before = writer.output();
            let output_offset: u64 = writer.next_entry_offset();
            let ghost stage = *writer;
            let written = match Self::write_entry(
                &self.entries[at],
                &dependencies,
                writer,
                capabilities,
                output_offset,
            ) {
                Ok(written) => written,
                Err(failure) => {
                    proof {
                        if old(writer).spec_state() is Streaming {
                            assert(grown_by(
                                entries,
                                capabilities,
                                start,
                                stage.output(),
                                cuts,
                                at as int,
                            ));
                            assert(stage_reached(
                                *old(writer),
                                stage,
                                entries,
                                capabilities,
                                at as int,
                            ));
                            assert(writer.spec_written() - old(writer).spec_written() == at);
                            assert(entry_unwritten(
                                self.spec_entries()[at as int],
                                stage,
                                writer.spec_report().cancellation.checks,
                                failure.error,
                            ));
                        }
                    }
                    return Err(failure);
                },
            };
            proof {
                let after = writer.output();
                let entry = entries[at as int];
                lemma_written_appends(
                    entry,
                    dependencies.offsets(),
                    capabilities,
                    before,
                    after,
                );
                lemma_entry_appended(entries, capabilities, before, after, cuts, at as int);
                lemma_offsets_extend(entries, cuts, after.len() as int, at as int);
                assert(after.take(start.len() as int) =~= before.take(start.len() as int));
                assert(output_offset == cuts[at as int]);
                cuts = cuts.push(after.len() as int);
            }
            dependencies.record_outgoing(self.entries[at].oid, output_offset);
            report.observe(written);
            at = at + 1;
        }
        assert(plan_written(entries, capabilities, start, writer.output()));
        Ok(report)
    }
}

} // verus!
