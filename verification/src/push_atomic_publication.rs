//! Policy evaluation on metadata, and guarded atomic publication of a prepared push.
//!
//! Every policy answer is in before the backend transaction begins. The transaction then rechecks
//! the promotion evidence, the generation, the expected refs and the prepared ancestry, and writes
//! everything together. No PACK or blob payload is decoded here.

use crate::budget::{spends, work_kept};
use crate::bytes::{append_bytes, text_chars};
use crate::clock::Timestamp;
use crate::memory_pack_promotion::MemoryPackPromotionReceipt;
use crate::object::{HashAlgo, ObjectId, RepositoryId, TenantId};
use crate::pack_promotion::PromotionEvidence;
use crate::pg_pack_promotion::PgPackPromotionReceipt;
use crate::push_metrics::ReceivePackLimits;
use crate::push_prepared::{
    PreparedAncestryContext, PreparedCommand, PreparedPush, PreparedPushAuditSummary,
    PushCommandKind,
};
use crate::push_quarantine::QuarantineId;
use vstd::prelude::*;
use vstd::utf8::encode_utf8;

verus! {

/// Most payload bytes of a report line, its newline counted.
pub const MAX_PAYLOAD_BYTES: usize = 65_516;

/// Exact promotion evidence that a backend transaction consumes.
#[derive(Debug)]
pub struct PromotionReceiptBinding {
    /// Owning tenant.
    pub tenant: TenantId,
    /// Owning repository.
    pub repository: RepositoryId,
    /// Source quarantine.
    pub quarantine_id: QuarantineId,
    /// Fenced quarantine generation.
    pub quarantine_generation: u64,
    /// Repository generation.
    pub repository_generation: u64,
    /// Trailing checksum.
    pub pack_checksum: ObjectId,
    /// Checksum of the validated index.
    pub index_checksum: ObjectId,
    /// Fingerprint of the prepared metadata.
    pub prepared_fingerprint: ObjectId,
    /// Entry count.
    pub object_count: u32,
    /// Complete PACK bytes.
    pub size_bytes: u64,
    /// Whether the same pack was already stored.
    pub deduplicated: bool,
}

/// The binding that spells out promotion evidence.
pub open spec fn evidence_binding(evidence: PromotionEvidence) -> PromotionReceiptBinding {
    PromotionReceiptBinding {
        tenant: evidence.tenant,
        repository: evidence.repository,
        quarantine_id: evidence.quarantine_id,
        quarantine_generation: evidence.quarantine_generation,
        repository_generation: evidence.repository_generation,
        pack_checksum: evidence.pack_checksum,
        index_checksum: evidence.index_checksum,
        prepared_fingerprint: evidence.prepared_fingerprint,
        object_count: evidence.object_count,
        size_bytes: evidence.size_bytes,
        deduplicated: evidence.deduplicated,
    }
}

/// A receipt of any backend.
pub trait PushPromotionReceipt {
    /// What the receipt testifies to.
    closed spec fn bound(&self) -> PromotionReceiptBinding {
        vstd::pervasive::arbitrary()
    }

    /// Copy the evidence.
    fn publication_binding(&self) -> (binding: PromotionReceiptBinding)
        ensures
            binding == self.bound(),
    ;
}

impl PushPromotionReceipt for MemoryPackPromotionReceipt {
    open spec fn bound(&self) -> PromotionReceiptBinding {
        evidence_binding(self.spec_evidence())
    }

    fn publication_binding(&self) -> (binding: PromotionReceiptBinding) {
        PromotionReceiptBinding {
            tenant: self.tenant().clone(),
            repository: self.repository().clone(),
            quarantine_id: self.quarantine_id(),
            quarantine_generation: self.quarantine_generation(),
            repository_generation: self.repository_generation(),
            pack_checksum: self.pack_checksum(),
            index_checksum: self.index_checksum(),
            prepared_fingerprint: self.prepared_fingerprint(),
            object_count: self.object_count(),
            size_bytes: self.size_bytes(),
            deduplicated: self.deduplicated(),
        }
    }
}

impl PushPromotionReceipt for PgPackPromotionReceipt {
    open spec fn bound(&self) -> PromotionReceiptBinding {
        evidence_binding(self.spec_evidence())
    }

    fn publication_binding(&self) -> (binding: PromotionReceiptBinding) {
        PromotionReceiptBinding {
            tenant: self.tenant().clone(),
            repository: self.repository().clone(),
            quarantine_id: self.quarantine_id(),
            quarantine_generation: self.quarantine_generation(),
            repository_generation: self.repository_generation(),
            pack_checksum: self.pack_checksum(),
            index_checksum: self.index_checksum(),
            prepared_fingerprint: self.prepared_fingerprint(),
            object_count: self.object_count(),
            size_bytes: self.size_bytes(),
            deduplicated: self.deduplicated(),
        }
    }
}

/// Why a command was rejected.
#[derive(Clone, Copy, Debug, PartialEq, Eq, Structural)]
pub enum PushPublicationRejection {
    /// A policy rejected the command.
    Policy,
    /// The repository generation is no longer the prepared one.
    StaleGeneration,
    /// The ref is not what was expected.
    RefConflict,
    /// The promoted pack is absent, or bound to other evidence.
    PromotionMissing,
    /// The update is not a prepared fast-forward.
    NonFastForward,
    /// Another command made the atomic group fail.
    AtomicAborted,
}

impl PushPublicationRejection {
    /// What the client is told.
    pub open spec fn spec_message(self) -> Seq<char> {
        match self {
            PushPublicationRejection::Policy => "policy rejected"@,
            PushPublicationRejection::StaleGeneration => "stale repository generation"@,
            PushPublicationRejection::RefConflict => "reference changed"@,
            PushPublicationRejection::PromotionMissing => "promoted pack unavailable"@,
            PushPublicationRejection::NonFastForward => "non-fast-forward"@,
            PushPublicationRejection::AtomicAborted => "atomic push failed"@,
        }
    }

    /// Return what the client is told.
    pub fn wire_message(self) -> (message: &'static str)
        ensures
            message@ == self.spec_message(),
    {
        match self {
            PushPublicationRejection::Policy => "policy rejected",
            PushPublicationRejection::StaleGeneration => "stale repository generation",
            PushPublicationRejection::RefConflict => "reference changed",
            PushPublicationRejection::PromotionMissing => "promoted pack unavailable",
            PushPublicationRejection::NonFastForward => "non-fast-forward",
            PushPublicationRejection::AtomicAborted => "atomic push failed",
        }
    }
}

/// What became of a command.
#[derive(Clone, Copy, Debug, PartialEq, Eq, Structural)]
pub enum PushPublicationCommandOutcome {
    /// Ref and reflog were committed.
    Applied,
    /// The ref was not changed.
    Rejected(PushPublicationRejection),
}

/// Status of one command.
#[derive(Debug)]
pub struct PushPublicationCommandStatus {
    /// Zero-based place in the request.
    pub ordinal: u32,
    /// Ref name.
    pub refname: String,
    /// What the command does.
    pub kind: PushCommandKind,
    /// What became of it.
    pub outcome: PushPublicationCommandOutcome,
}

/// Negotiated report format.
#[derive(Clone, Copy, Debug, PartialEq, Eq, Structural)]
pub enum PushReportStatusVersion {
    /// `report-status`.
    V1,
    /// `report-status-v2`; refs that are not rewritten need no option lines.
    V2,
}

/// What the structural index needs beside the refs.
#[derive(Clone, Copy, Debug, PartialEq, Eq, Structural)]
pub enum PushStructuralPublicationPrerequisite {
    /// Nothing was pushed that needs indexing.
    Satisfied,
    /// A canonical indexing transaction is still needed.
    DeferredCanonicalIndex {
        /// Structural objects that await indexing.
        objects: u32,
    },
}

/// Report of a publication.
#[derive(Debug)]
pub struct PushPublicationReport {
    /// Prepared fingerprint, which is also the idempotency identity.
    pub prepared_fingerprint: ObjectId,
    /// Repository generation afterwards.
    pub repository_generation: u64,
    /// Statuses in request order.
    pub statuses: Vec<PushPublicationCommandStatus>,
    /// What the structural index needs.
    pub structural: PushStructuralPublicationPrerequisite,
}

/// Why a report cannot be written.
#[derive(Clone, Copy, Debug, PartialEq, Eq, Structural)]
pub enum PushReportError {
    /// A ref name is not valid.
    InvalidRefName,
    /// A line exceeds the bound of a packet.
    LineTooLong,
}

/// The digit of a value below sixteen.
pub open spec fn hex_digit(value: int) -> u8 {
    if value < 10 {
        (48 + value) as u8
    } else {
        (87 + value) as u8
    }
}

/// Four hexadecimal digits, the highest first.
pub open spec fn hex_length(length: int) -> Seq<u8> {
    seq![
        hex_digit(length / 4096 % 16),
        hex_digit(length / 256 % 16),
        hex_digit(length / 16 % 16),
        hex_digit(length % 16),
    ]
}

/// A packet: the length of the whole, then the payload.
pub open spec fn packet(payload: Seq<u8>) -> Seq<u8> {
    hex_length(payload.len() as int + 4) + payload
}

/// The value of a digit.
pub open spec fn digit_value(digit: u8) -> int {
    if digit < 58 {
        digit - 48
    } else {
        digit - 87
    }
}

/// The value of four digits.
pub open spec fn length_value(digits: Seq<u8>) -> int {
    digit_value(digits[0]) * 4096 + digit_value(digits[1]) * 256 + digit_value(digits[2]) * 16
        + digit_value(digits[3])
}

/// A digit below sixteen reads back.
proof fn lemma_digit(value: int)
    requires
        0 <= value < 16,
    ensures
        digit_value(hex_digit(value)) == value,
{
}

/// Four digits add up to the number.
proof fn lemma_digits(length: int)
    requires
        0 <= length < 65_536,
    ensures
        (length / 4096 % 16) * 4096 + (length / 256 % 16) * 256 + (length / 16 % 16) * 16 + length
            % 16 == length,
{
    let sixteens = length / 16;
    let hundreds = length / 256;
    let top = length / 4096;
    assert(hundreds == sixteens / 16);
    assert(top == hundreds / 16);
    assert(top < 16);
    assert(length == sixteens * 16 + length % 16);
    assert(sixteens == hundreds * 16 + sixteens % 16);
    assert(hundreds == top * 16 + hundreds % 16);
}

/// A packet's length reads back from its first four bytes, and none of a report is a flush.
pub proof fn law_packet_length_reads_back(payload: Seq<u8>)
    requires
        payload.len() <= MAX_PAYLOAD_BYTES,
    ensures
        packet(payload).len() == payload.len() + 4,
        length_value(packet(payload).take(4)) == packet(payload).len(),
        packet(payload).skip(4) == payload,
        packet(payload).take(4) != flush_packet(),
{
    let length = payload.len() as int + 4;
    let digits = hex_length(length);
    assert(packet(payload).take(4) =~= digits);
    assert(packet(payload).skip(4) =~= payload);
    lemma_digits(length);
    lemma_digit(length / 4096 % 16);
    lemma_digit(length / 256 % 16);
    lemma_digit(length / 16 % 16);
    lemma_digit(length % 16);
    assert(length_value(digits) == length);
    if digits == flush_packet() {
        assert(length_value(flush_packet()) == 0);
    }
}

/// The flush packet.
pub open spec fn flush_packet() -> Seq<u8> {
    seq![48u8, 48u8, 48u8, 48u8]
}

/// The bytes of `unpack ok`.
pub open spec fn unpack_text() -> Seq<u8> {
    seq![117u8, 110u8, 112u8, 97u8, 99u8, 107u8, 32u8, 111u8, 107u8]
}

/// The bytes of `ok` and a blank.
pub open spec fn ok_word() -> Seq<u8> {
    seq![111u8, 107u8, 32u8]
}

/// The bytes of `ng` and a blank.
pub open spec fn ng_word() -> Seq<u8> {
    seq![110u8, 103u8, 32u8]
}

/// The text of a status line.
pub open spec fn status_text(status: PushPublicationCommandStatus) -> Seq<u8> {
    match status.outcome {
        PushPublicationCommandOutcome::Applied => ok_word() + encode_utf8(status.refname@),
        PushPublicationCommandOutcome::Rejected(reason) => ng_word() + encode_utf8(
            status.refname@,
        ).push(32) + encode_utf8(reason.spec_message()),
    }
}

/// The packet of a line.
pub open spec fn line_packet(text: Seq<u8>) -> Seq<u8> {
    packet(text.push(10))
}

/// The packets of status lines.
pub open spec fn status_packets(statuses: Seq<PushPublicationCommandStatus>) -> Seq<u8>
    decreases statuses.len(),
{
    if statuses.len() == 0 {
        Seq::empty()
    } else {
        status_packets(statuses.drop_last()) + line_packet(status_text(statuses.last()))
    }
}

/// A report: the unpack line, a line for every command, and a flush.
pub open spec fn report_bytes(statuses: Seq<PushPublicationCommandStatus>) -> Seq<u8> {
    line_packet(unpack_text()) + status_packets(statuses) + flush_packet()
}

/// Why a status cannot be written, given whether its name is well formed.
pub open spec fn status_fault(
    status: PushPublicationCommandStatus,
    well_formed: bool,
) -> Option<PushReportError> {
    if !("refs/"@.is_prefix_of(status.refname@)) || !well_formed {
        Some(PushReportError::InvalidRefName)
    } else if status_text(status).len() + 1 > MAX_PAYLOAD_BYTES {
        Some(PushReportError::LineTooLong)
    } else {
        None
    }
}

/// The first fault of a report.
pub open spec fn report_fault(
    statuses: Seq<PushPublicationCommandStatus>,
    well_formed: Seq<bool>,
) -> Option<PushReportError>
    decreases statuses.len(),
{
    if statuses.len() == 0 {
        None
    } else {
        match report_fault(statuses.drop_last(), well_formed) {
            Some(fault) => Some(fault),
            None => status_fault(statuses.last(), well_formed[statuses.len() - 1]),
        }
    }
}

/// A fault of the front part is the fault of the whole.
proof fn lemma_fault_stays(
    statuses: Seq<PushPublicationCommandStatus>,
    well_formed: Seq<bool>,
    count: int,
)
    requires
        0 <= count <= statuses.len(),
        report_fault(statuses.take(count), well_formed) is Some,
    ensures
        report_fault(statuses, well_formed) == report_fault(statuses.take(count), well_formed),
    decreases statuses.len(),
{
    if count == statuses.len() {
        assert(statuses.take(count) =~= statuses);
    } else {
        assert(statuses.drop_last().take(count) =~= statuses.take(count));
        lemma_fault_stays(statuses.drop_last(), well_formed, count);
    }
}

/// Return the digit of a value below sixteen.
fn push_hex_digit(out: &mut Vec<u8>, value: usize)
    requires
        value < 16,
    ensures
        final(out)@ == old(out)@.push(hex_digit(value as int)),
{
    if value < 10 {
        out.push(48 + value as u8);
    } else {
        out.push(87 + value as u8);
    }
}

/// Append a packet.
fn write_packet(out: &mut Vec<u8>, payload: &Vec<u8>)
    requires
        payload@.len() <= MAX_PAYLOAD_BYTES,
    ensures
        final(out)@ == old(out)@ + packet(payload@),
{
    let ghost before = out@;
    let length: usize = payload.len() + 4;
    push_hex_digit(out, length / 4096 % 16);
    push_hex_digit(out, length / 256 % 16);
    push_hex_digit(out, length / 16 % 16);
    push_hex_digit(out, length % 16);
    append_bytes(out, payload.as_slice());
    assert(out@ =~= before + packet(payload@));
}

/// Append a line of several fields as one packet, if it fits.
fn write_report_line(out: &mut Vec<u8>, text: &Vec<u8>) -> (result: Result<(), PushReportError>)
    ensures
        match result {
            Ok(_) => text@.len() + 1 <= MAX_PAYLOAD_BYTES && final(out)@ == old(out)@ + line_packet(
                text@,
            ),
            Err(error) => text@.len() + 1 > MAX_PAYLOAD_BYTES && error
                == PushReportError::LineTooLong && final(out)@ == old(out)@,
        },
{
    if text.len() >= MAX_PAYLOAD_BYTES {
        return Err(PushReportError::LineTooLong);
    }
    let mut payload: Vec<u8> = Vec::new();
    append_bytes(&mut payload, text.as_slice());
    payload.push(10);
    assert(payload@ =~= text@.push(10));
    write_packet(out, &payload);
    Ok(())
}

/// Write the text of a status line.
fn write_status(status: &PushPublicationCommandStatus) -> (text: Vec<u8>)
    ensures
        text@ == status_text(*status),
{
    let mut text: Vec<u8> = Vec::new();
    match status.outcome {
        PushPublicationCommandOutcome::Applied => {
            text.push(111);
            text.push(107);
            text.push(32);
            assert(text@ =~= ok_word());
            append_bytes(&mut text, status.refname.as_str().as_bytes());
        },
        PushPublicationCommandOutcome::Rejected(reason) => {
            text.push(110);
            text.push(103);
            text.push(32);
            assert(text@ =~= ng_word());
            append_bytes(&mut text, status.refname.as_str().as_bytes());
            text.push(32);
            append_bytes(&mut text, reason.wire_message().as_bytes());
        },
    }
    assert(text@ =~= status_text(*status));
    text
}

/// Return whether a ref name stands under `refs/`.
fn under_refs(refname: &String) -> (under: bool)
    ensures
        under == "refs/"@.is_prefix_of(refname@),
{
    proof {
        reveal_strlit("refs/");
    }
    let chars: Vec<char> = text_chars(refname);
    let under: bool = chars.len() >= 5 && chars[0] == 'r' && chars[1] == 'e' && chars[2] == 'f'
        && chars[3] == 's' && chars[4] == '/';
    proof {
        if under {
            assert("refs/"@ =~= refname@.subrange(0, 5));
        } else if "refs/"@.is_prefix_of(refname@) {
            let front = refname@.subrange(0, 5);
            assert(front == "refs/"@);
            assert(front[0] == 'r' && front[1] == 'e' && front[2] == 'f' && front[3] == 's'
                && front[4] == '/');
        }
    }
    under
}

impl PushPublicationReport {
    /// Write the report's packets, given for every status whether its ref name is well formed.
    ///
    /// Refs are not rewritten, so both formats have the same lines.
    pub fn to_pkt_lines(&self, version: PushReportStatusVersion, well_formed: &Vec<bool>) -> (result:
        Result<Vec<u8>, PushReportError>)
        requires
            well_formed@.len() == self.statuses@.len(),
        ensures
            match result {
                Ok(bytes) => report_fault(self.statuses@, well_formed@) is None && bytes@
                    == report_bytes(self.statuses@),
                Err(error) => report_fault(self.statuses@, well_formed@) == Some(error),
            },
    {
        let mut out: Vec<u8> = Vec::new();
        let first: Vec<u8> = vec![117, 110, 112, 97, 99, 107, 32, 111, 107];
        assert(first@ =~= unpack_text());
        if let Err(error) = write_report_line(&mut out, &first) {
            return Err(error);
        }
        let ghost head = line_packet(unpack_text());
        assert(out@ =~= head);
        let statuses = &self.statuses;
        let mut at: usize = 0;
        assert(statuses@.take(0) =~= Seq::<PushPublicationCommandStatus>::empty());
        assert(out@ =~= head + status_packets(statuses@.take(0)));
        while at < statuses.len()
            invariant
                statuses == self.statuses,
                at <= statuses@.len(),
                well_formed@.len() == statuses@.len(),
                report_fault(statuses@.take(at as int), well_formed@) is None,
                out@ == head + status_packets(statuses@.take(at as int)),
            decreases statuses.len() - at,
        {
            let ghost front = statuses@.take(at as int);
            let ghost more = statuses@.take(at + 1);
            proof {
                assert(more.drop_last() =~= front);
                assert(more.last() == statuses@[at as int]);
            }
            if !under_refs(&statuses[at].refname) || !well_formed[at] {
                proof {
                    lemma_fault_stays(statuses@, well_formed@, at + 1);
                }
                return Err(PushReportError::InvalidRefName);
            }
            let text: Vec<u8> = write_status(&statuses[at]);
            if let Err(error) = write_report_line(&mut out, &text) {
                proof {
                    lemma_fault_stays(statuses@, well_formed@, at + 1);
                }
                return Err(error);
            }
            assert(out@ =~= head + status_packets(more));
            at = at + 1;
        }
        assert(statuses@.take(at as int) =~= statuses@);
        let ghost body = out@;
        out.push(48);
        out.push(48);
        out.push(48);
        out.push(48);
        assert(out@ =~= body + flush_packet());
        Ok(out)
    }

    /// Return whether at least one ref was committed.
    pub fn any_applied(&self) -> (applied: bool)
        ensures
            applied == exists|i: int|
                0 <= i < self.statuses@.len() && (#[trigger] self.statuses@[i]).outcome
                    == PushPublicationCommandOutcome::Applied,
    {
        let mut at: usize = 0;
        while at < self.statuses.len()
            invariant
                at <= self.statuses@.len(),
                forall|i: int|
                    0 <= i < at ==> (#[trigger] self.statuses@[i]).outcome
                        != PushPublicationCommandOutcome::Applied,
            decreases self.statuses.len() - at,
        {
            if self.statuses[at].outcome == PushPublicationCommandOutcome::Applied {
                return true;
            }
            at = at + 1;
        }
        false
    }
}

/// Audit payload of a push.
#[derive(Debug)]
pub struct PushPublicationAudit {
    /// Owning tenant.
    pub tenant: TenantId,
    /// Owning repository.
    pub repository: RepositoryId,
    /// Fingerprint of the prepared metadata.
    pub prepared_fingerprint: ObjectId,
    /// Preparation counts.
    pub summary: PreparedPushAuditSummary,
    /// Actor's stable identifier.
    pub actor_id: String,
    /// Event time.
    pub timestamp: Timestamp,
}

impl Clone for PushPublicationAudit {
    fn clone(&self) -> (copy: Self)
        ensures
            copy == *self,
    {
        PushPublicationAudit {
            tenant: self.tenant.clone(),
            repository: self.repository.clone(),
            prepared_fingerprint: self.prepared_fingerprint,
            summary: self.summary,
            actor_id: self.actor_id.clone(),
            timestamp: self.timestamp,
        }
    }
}

/// Durable work that a transaction leaves behind.
#[derive(Debug)]
pub enum PushPublicationOutboxEvent {
    /// A ref was changed.
    RefChanged {
        /// Ref name.
        refname: String,
        /// Whether the ref was deleted.
        deleted: bool,
    },
    /// Post-receive is to run on what was committed.
    PostReceive {
        /// Places of the applied commands.
        ordinals: Vec<u32>,
    },
    /// An accepted push is to be recorded.
    AcceptedAudit(PushPublicationAudit),
    /// A push that was rejected as a whole is to be recorded.
    RejectedAudit {
        /// Audit payload.
        audit: PushPublicationAudit,
        /// Why it was rejected.
        reason: PushPublicationRejection,
    },
}

/// One command of a transaction.
#[derive(Debug)]
pub struct PushPublicationCommand {
    /// Zero-based place in the request.
    pub ordinal: u32,
    /// Ref name.
    pub refname: String,
    /// Object that the ref must have, or none for a create.
    pub expected: Option<ObjectId>,
    /// Object that the ref gets, or none for a delete.
    pub new_oid: Option<ObjectId>,
    /// What the command does.
    pub kind: PushCommandKind,
    /// Whether every policy allowed the command.
    pub policy_allowed: bool,
    /// Prepared ancestry.
    pub ancestry: PreparedAncestryContext,
}

/// A backend transaction.
#[derive(Debug)]
pub struct PushPublicationTransaction {
    /// Owning tenant.
    pub tenant: TenantId,
    /// Owning repository.
    pub repository: RepositoryId,
    /// Object format.
    pub hash_algo: HashAlgo,
    /// Repository generation seen during preparation.
    pub repository_generation: u64,
    /// Fingerprint of the prepared metadata.
    pub prepared_fingerprint: ObjectId,
    /// Promotion evidence, absent where no PACK was needed.
    pub promotion: Option<PromotionReceiptBinding>,
    /// Whether all or none of the commands are applied.
    pub atomic: bool,
    /// Commands in request order.
    pub commands: Vec<PushPublicationCommand>,
    /// Identity for reflogs.
    pub reflog_identity: String,
    /// Event time.
    pub timestamp: Timestamp,
    /// Audit payload.
    pub audit: PushPublicationAudit,
    /// What the structural index needs.
    pub structural: PushStructuralPublicationPrerequisite,
}

/// A backend transaction failed.
#[derive(Clone, Copy, Debug, PartialEq, Eq, Structural)]
pub struct PushPublicationBackendError;

/// What a backend was asked to do.
pub enum PushPublicationRequest {
    /// Publish a transaction.
    Publish(PushPublicationTransaction),
    /// Record a rejection.
    Reject(PushPublicationAudit, PushPublicationRejection),
}

/// Backend of refs, reflogs, generation, idempotency record and outbox.
pub trait PushAtomicPublicationBackend {
    /// What was asked so far.
    closed spec fn requests(&self) -> Seq<PushPublicationRequest> {
        Seq::empty()
    }

    /// The last transaction was answered this way.
    closed spec fn answered(
        &self,
        transaction: PushPublicationTransaction,
        answer: Result<PushPublicationReport, PushPublicationBackendError>,
    ) -> bool {
        true
    }

    /// The last rejection was answered this way.
    closed spec fn recorded(
        &self,
        audit: PushPublicationAudit,
        answer: Result<(), PushPublicationBackendError>,
    ) -> bool {
        true
    }

    /// Recheck and publish in one transaction.
    fn publish_transaction(&mut self, transaction: PushPublicationTransaction) -> (result: Result<
        PushPublicationReport,
        PushPublicationBackendError,
    >)
        ensures
            final(self).requests() == old(self).requests().push(
                PushPublicationRequest::Publish(transaction),
            ),
            final(self).answered(transaction, result),
    ;

    /// Record a rejection once by prepared fingerprint.
    fn record_rejection(
        &mut self,
        audit: PushPublicationAudit,
        reason: PushPublicationRejection,
    ) -> (result: Result<(), PushPublicationBackendError>)
        ensures
            final(self).requests() == old(self).requests().push(
                PushPublicationRequest::Reject(audit, reason),
            ),
            final(self).recorded(audit, result),
    ;
}

/// The last request was answered with a failure.
pub open spec fn request_failed<B: PushAtomicPublicationBackend>(backend: B) -> bool {
    match backend.requests().last() {
        PushPublicationRequest::Publish(transaction) => backend.answered(
            transaction,
            Err(PushPublicationBackendError),
        ),
        PushPublicationRequest::Reject(audit, _) => backend.recorded(
            audit,
            Err(PushPublicationBackendError),
        ),
    }
}

/// The last request was a rejection, and it was recorded.
pub open spec fn rejection_recorded<B: PushAtomicPublicationBackend>(backend: B) -> bool {
    &&& backend.requests().last() matches PushPublicationRequest::Reject(audit, _)
    &&& backend.recorded(audit, Ok(()))
}

/// The last request was a publication, and it was answered with this report.
pub open spec fn report_answered<B: PushAtomicPublicationBackend>(
    backend: B,
    report: PushPublicationReport,
) -> bool {
    &&& backend.requests().last() matches PushPublicationRequest::Publish(transaction)
    &&& backend.answered(transaction, Ok(report))
}

/// Who pushes.
#[derive(Debug)]
pub struct PolicyActor {
    /// Stable identifier.
    pub id: String,
    /// Identity for reflogs.
    pub reflog_identity: String,
}

impl Clone for PolicyActor {
    fn clone(&self) -> (copy: Self)
        ensures
            copy == *self,
    {
        PolicyActor { id: self.id.clone(), reflog_identity: self.reflog_identity.clone() }
    }
}

/// One ref update as a policy sees it.
#[derive(Debug)]
pub struct PolicyRefUpdate {
    /// Ref name.
    pub refname: String,
    /// Old object as the client states it.
    pub old_oid: ObjectId,
    /// New object, null for a delete.
    pub new_oid: ObjectId,
    /// What the command does.
    pub kind: PushCommandKind,
}

/// A whole push as a policy sees it.
#[derive(Debug)]
pub struct PushPolicyContext {
    /// Owning tenant.
    pub tenant: TenantId,
    /// Owning repository.
    pub repository: RepositoryId,
    /// Who pushes.
    pub actor: PolicyActor,
    /// Updates in request order.
    pub updates: Vec<PolicyRefUpdate>,
    /// Commits received.
    pub pushed_commits: Vec<ObjectId>,
}

/// One update of a push as a policy sees it.
#[derive(Debug)]
pub struct RefUpdatePolicyContext {
    /// Owning tenant.
    pub tenant: TenantId,
    /// Owning repository.
    pub repository: RepositoryId,
    /// Who pushes.
    pub actor: PolicyActor,
    /// The update.
    pub update: PolicyRefUpdate,
    /// Commits received.
    pub pushed_commits: Vec<ObjectId>,
}

/// What a policy decides.
#[derive(Clone, Copy, Debug, PartialEq, Eq, Structural)]
pub enum PolicyDecision {
    /// Go on.
    Allow,
    /// Reject.
    Deny,
}

/// A policy came to no decision.
#[derive(Clone, Copy, Debug, PartialEq, Eq, Structural)]
pub struct PolicyFailure;

/// A question put to a policy, with its answer.
pub enum PolicyExchange {
    /// About the whole push.
    PreReceive(PushPolicyContext, Result<PolicyDecision, PolicyFailure>),
    /// About one update.
    Update(RefUpdatePolicyContext, Result<PolicyDecision, PolicyFailure>),
}

/// Policy on metadata.
pub trait PushPolicy {
    /// What was asked and answered so far.
    closed spec fn exchanges(&self) -> Seq<PolicyExchange> {
        Seq::empty()
    }

    /// Decide on a whole push.
    fn pre_receive(&mut self, context: &PushPolicyContext) -> (result: Result<
        PolicyDecision,
        PolicyFailure,
    >)
        ensures
            final(self).exchanges() == old(self).exchanges().push(
                PolicyExchange::PreReceive(*context, result),
            ),
    ;

    /// Decide on one update.
    fn update(&mut self, context: &RefUpdatePolicyContext) -> (result: Result<
        PolicyDecision,
        PolicyFailure,
    >)
        ensures
            final(self).exchanges() == old(self).exchanges().push(
                PolicyExchange::Update(*context, result),
            ),
    ;
}

/// Publication failure beside the statuses of single commands.
#[derive(Clone, Copy, Debug, PartialEq, Eq, Structural)]
pub enum PushAtomicPublicationError {
    /// Limits are invalid.
    InvalidLimits,
    /// Commands, ancestry, evidence or groups do not fit together.
    Binding,
    /// A bounded buffer could not be reserved.
    Allocation,
    /// The work budget is exhausted.
    WorkBudget,
    /// Cancellation was observed before the transaction.
    Cancelled,
    /// The deadline elapsed, or observed time moved backwards.
    Deadline,
    /// A policy came to no decision.
    Policy,
    /// The backend failed.
    Backend,
}

/// Bounds of what precedes the transaction.
#[derive(Clone, Copy, Debug, PartialEq, Eq, Structural)]
pub struct PushAtomicPublicationLimits {
    /// Maximum commands.
    pub max_commands: usize,
    /// Start time.
    pub started_at: Timestamp,
    /// Deadline; nothing is observed any more once the backend is called.
    pub deadline: Timestamp,
}

impl PushAtomicPublicationLimits {
    /// The bounds may be used.
    pub open spec fn valid(self) -> bool {
        let hard = ReceivePackLimits::spec_hard_max();
        &&& 0 < self.max_commands <= hard.max_commands
        &&& self.started_at.unix_nanos < self.deadline.unix_nanos
        &&& self.deadline.unix_nanos - self.started_at.unix_nanos <= hard.max_duration.nanos
    }

    /// Validate the bounds.
    pub fn validate(self) -> (result: Result<Self, PushAtomicPublicationError>)
        ensures
            result == if self.valid() {
                Ok::<Self, PushAtomicPublicationError>(self)
            } else {
                Err(PushAtomicPublicationError::InvalidLimits)
            },
    {
        let hard = ReceivePackLimits::hard_max();
        if self.max_commands == 0 || self.max_commands > hard.max_commands
            || self.deadline.unix_nanos <= self.started_at.unix_nanos {
            return Err(PushAtomicPublicationError::InvalidLimits);
        }
        match self.deadline.unix_nanos.checked_sub(self.started_at.unix_nanos) {
            Some(span) => {
                if span as u128 > hard.max_duration.nanos {
                    return Err(PushAtomicPublicationError::InvalidLimits);
                }
                Ok(self)
            },
            None => Err(PushAtomicPublicationError::InvalidLimits),
        }
    }
}

/// One observation of time and cancellation.
#[derive(Clone, Copy, Debug, PartialEq, Eq, Structural)]
pub struct PushAtomicPublicationObservation {
    /// Observed time.
    pub observed_at: Timestamp,
    /// Cancellation.
    pub cancelled: bool,
}

/// Source of observations.
pub trait PushAtomicPublicationControl {
    /// The source may make this observation.
    closed spec fn observes(observation: PushAtomicPublicationObservation) -> bool {
        true
    }

    /// Return the latest observation.
    fn observe(&mut self) -> (observation: PushAtomicPublicationObservation)
        ensures
            Self::observes(observation),
    ;
}

/// Work budget.
pub trait PushAtomicPublicationWork {
    /// A charge may be answered so.
    closed spec fn answers(units: u64, charged: bool) -> bool {
        true
    }

    /// Units left, where the budget counts them.
    closed spec fn allowance(&self) -> Option<nat> {
        None
    }

    /// Charge work units; `false` means that the budget is exhausted.
    fn charge(&mut self, units: u64) -> (charged: bool)
        ensures
            Self::answers(units, charged),
            spends(old(self).allowance(), final(self).allowance(), units, charged),
    ;
}

/// Counter-based work budget.
#[derive(Clone, Copy, Debug, PartialEq, Eq, Structural)]
pub struct PushAtomicPublicationWorkLimit {
    remaining: u64,
}

impl PushAtomicPublicationWorkLimit {
    /// Units left.
    pub closed spec fn left(self) -> u64 {
        self.remaining
    }

    /// Create an exact allowance.
    pub fn new(units: u64) -> (limit: Self)
        ensures
            limit.left() == units,
    {
        PushAtomicPublicationWorkLimit { remaining: units }
    }

    /// Return the units left.
    pub fn remaining(&self) -> (units: u64)
        ensures
            units == self.left(),
    {
        self.remaining
    }
}

impl PushAtomicPublicationWork for PushAtomicPublicationWorkLimit {
    /// A charge of nothing is never refused.
    open spec fn answers(units: u64, charged: bool) -> bool {
        charged || units > 0
    }

    /// What is left.
    open spec fn allowance(&self) -> Option<nat> {
        Some(self.left() as nat)
    }

    fn charge(&mut self, units: u64) -> (charged: bool)
        ensures
            charged == (units <= old(self).left()),
            final(self).left() == if charged {
                (old(self).left() - units) as u64
            } else {
                old(self).left()
            },
    {
        if units > self.remaining {
            return false;
        }
        self.remaining = self.remaining - units;
        true
    }
}

/// The time is that of the start or of an observation.
pub open spec fn seen_at<C: PushAtomicPublicationControl>(
    limits: PushAtomicPublicationLimits,
    time: Timestamp,
) -> bool {
    time == limits.started_at || exists|observation: PushAtomicPublicationObservation| #[trigger]
        C::observes(observation) && observation.observed_at == time
}

/// The observation lies outside the run, or before an earlier time of it.
pub open spec fn untimely<C: PushAtomicPublicationControl>(
    limits: PushAtomicPublicationLimits,
    observation: PushAtomicPublicationObservation,
) -> bool {
    ||| observation.observed_at.unix_nanos < limits.started_at.unix_nanos
    ||| observation.observed_at.unix_nanos >= limits.deadline.unix_nanos
    ||| exists|time: Timestamp| #[trigger]
        seen_at::<C>(limits, time) && observation.observed_at.unix_nanos < time.unix_nanos
}

/// A checkpoint let the run go on: it was observed in time and not cancelled, and the units were
/// granted.
pub open spec fn cleared<W: PushAtomicPublicationWork, C: PushAtomicPublicationControl>(limits: PushAtomicPublicationLimits, units: u64) -> bool {
    &&& W::answers(units, true)
    &&& exists|observation: PushAtomicPublicationObservation| #[trigger]
        C::observes(observation) && !observation.cancelled && limits.started_at.unix_nanos
            <= observation.observed_at.unix_nanos < limits.deadline.unix_nanos
}

/// A checkpoint stopped the run from outside: its charge was refused, or its observation was
/// cancelled or untimely.
pub open spec fn interrupted<W: PushAtomicPublicationWork, C: PushAtomicPublicationControl>(
    limits: PushAtomicPublicationLimits,
    units: u64,
    error: PushAtomicPublicationError,
) -> bool {
    ||| error == PushAtomicPublicationError::WorkBudget && W::answers(units, false)
    ||| error == PushAtomicPublicationError::Cancelled
        && exists|observation: PushAtomicPublicationObservation| #[trigger]
        C::observes(observation) && observation.cancelled
    ||| error == PushAtomicPublicationError::Deadline
        && exists|observation: PushAtomicPublicationObservation| #[trigger]
        C::observes(observation) && untimely::<C>(limits, observation)
}

/// A checkpoint of the publication stopped it: one for a step, one for the commits that a policy
/// sees, or one for the commands that are published.
pub open spec fn publication_stopped<
    W: PushAtomicPublicationWork,
    C: PushAtomicPublicationControl,
>(
    prepared: PreparedPush,
    limits: PushAtomicPublicationLimits,
    error: PushAtomicPublicationError,
) -> bool {
    ||| interrupted::<W, C>(limits, 1, error)
    ||| interrupted::<W, C>(limits, prepared.pushed_commits@.len() as u64, error)
    ||| interrupted::<W, C>(limits, prepared.commands@.len() as u64, error)
}

/// Accept one observation: time never goes back, and the run is neither cancelled nor over.
pub fn accept_observation(
    observation: PushAtomicPublicationObservation,
    limits: &PushAtomicPublicationLimits,
    last_observed: &mut Timestamp,
) -> (result: Result<(), PushAtomicPublicationError>)
    ensures
        result == if observation.observed_at.unix_nanos < old(last_observed).unix_nanos {
            Err::<(), PushAtomicPublicationError>(PushAtomicPublicationError::Deadline)
        } else if observation.cancelled {
            Err(PushAtomicPublicationError::Cancelled)
        } else if observation.observed_at.unix_nanos < limits.started_at.unix_nanos
            || observation.observed_at.unix_nanos >= limits.deadline.unix_nanos {
            Err(PushAtomicPublicationError::Deadline)
        } else {
            Ok(())
        },
        *final(last_observed) == if observation.observed_at.unix_nanos < old(last_observed).unix_nanos {
            *old(last_observed)
        } else {
            observation.observed_at
        },
{
    if observation.observed_at.unix_nanos < last_observed.unix_nanos {
        return Err(PushAtomicPublicationError::Deadline);
    }
    *last_observed = observation.observed_at;
    if observation.cancelled {
        return Err(PushAtomicPublicationError::Cancelled);
    }
    if observation.observed_at.unix_nanos < limits.started_at.unix_nanos
        || observation.observed_at.unix_nanos >= limits.deadline.unix_nanos {
        return Err(PushAtomicPublicationError::Deadline);
    }
    Ok(())
}

/// Most units that a publication takes: one before and one behind the first policy, the commits and
/// one more for every command, and the commands.
pub open spec fn publication_work(prepared: PreparedPush) -> int {
    let count = prepared.commands@.len() as int;
    2 + count * (prepared.pushed_commits@.len() + 1) + count
}

/// Observe time and cancellation, then charge units.
fn checkpoint<W: PushAtomicPublicationWork, C: PushAtomicPublicationControl>(
    limits: &PushAtomicPublicationLimits,
    work: &mut W,
    control: &mut C,
    last_observed: &mut Timestamp,
    units: u64,
) -> (result: Result<(), PushAtomicPublicationError>)
    requires
        seen_at::<C>(*limits, *old(last_observed)),
    ensures
        seen_at::<C>(*limits, *final(last_observed)),
        match result {
            Ok(()) => cleared::<W, C>(*limits, units),
            Err(error) => interrupted::<W, C>(*limits, units, error),
        },
        work_kept(
            old(work).allowance(),
            final(work).allowance(),
            result is Err && result->Err_0 == PushAtomicPublicationError::WorkBudget,
            units as int,
        ),
{
    let observation = control.observe();
    accept_observation(observation, limits, last_observed)?;
    if !work.charge(units) {
        return Err(PushAtomicPublicationError::WorkBudget);
    }
    Ok(())
}

/// Evidence and prepared push agree in everything.
pub open spec fn receipt_agrees(receipt: PromotionReceiptBinding, prepared: PreparedPush) -> bool {
    let manifest = prepared.quarantine.manifest;
    &&& receipt.tenant@ == prepared.tenant@
    &&& receipt.repository@ == prepared.repository@
    &&& receipt.quarantine_id == prepared.quarantine.id
    &&& receipt.quarantine_generation == prepared.quarantine.generation
    &&& receipt.repository_generation == prepared.repository_generation
    &&& receipt.prepared_fingerprint == prepared.fingerprint
    &&& Some(receipt.pack_checksum) == manifest.pack_checksum
    &&& Some(receipt.index_checksum) == manifest.index_checksum
    &&& receipt.object_count == manifest.object_count
    &&& receipt.size_bytes == manifest.pack_bytes
}

/// Evidence is there exactly where a PACK was, and agrees; the groups are what was asked for.
pub open spec fn bindings_hold(
    prepared: PreparedPush,
    promotion: Option<PromotionReceiptBinding>,
) -> bool {
    &&& prepared.quarantine.manifest.pack_checksum is Some <==> promotion is Some
    &&& promotion is Some ==> receipt_agrees(promotion->0, prepared)
    &&& prepared.groups@.len() == if prepared.atomic {
        1
    } else {
        prepared.commands@.len()
    }
    &&& forall|i: int|
        0 <= i < prepared.groups@.len() ==> (#[trigger] prepared.groups@[i]).atomic
            == prepared.atomic
}

/// Validate evidence and groups.
pub fn validate_bindings(
    prepared: &PreparedPush,
    promotion: &Option<PromotionReceiptBinding>,
) -> (result: Result<(), PushAtomicPublicationError>)
    ensures
        result == if bindings_hold(*prepared, *promotion) {
            Ok::<(), PushAtomicPublicationError>(())
        } else {
            Err(PushAtomicPublicationError::Binding)
        },
{
    let source = prepared.quarantine;
    let manifest = source.manifest;
    match promotion {
        Some(receipt) => {
            if !receipt.tenant.same(&prepared.tenant) || !receipt.repository.same(
                &prepared.repository,
            ) || receipt.quarantine_id != source.id || receipt.quarantine_generation
                != source.generation || receipt.repository_generation
                != prepared.repository_generation || receipt.prepared_fingerprint
                != prepared.fingerprint || receipt.object_count != manifest.object_count
                || receipt.size_bytes != manifest.pack_bytes {
                return Err(PushAtomicPublicationError::Binding);
            }
            match manifest.pack_checksum {
                Some(checksum) => {
                    if receipt.pack_checksum != checksum {
                        return Err(PushAtomicPublicationError::Binding);
                    }
                },
                None => {
                    return Err(PushAtomicPublicationError::Binding);
                },
            }
            match manifest.index_checksum {
                Some(checksum) => {
                    if receipt.index_checksum != checksum {
                        return Err(PushAtomicPublicationError::Binding);
                    }
                },
                None => {
                    return Err(PushAtomicPublicationError::Binding);
                },
            }
        },
        None => {
            if manifest.pack_checksum.is_some() {
                return Err(PushAtomicPublicationError::Binding);
            }
        },
    }
    let groups: usize = if prepared.atomic {
        1
    } else {
        prepared.commands.len()
    };
    if prepared.groups.len() != groups {
        return Err(PushAtomicPublicationError::Binding);
    }
    let mut at: usize = 0;
    while at < prepared.groups.len()
        invariant
            at <= prepared.groups@.len(),
            forall|i: int|
                0 <= i < at ==> (#[trigger] prepared.groups@[i]).atomic == prepared.atomic,
        decreases prepared.groups.len() - at,
    {
        if prepared.groups[at].atomic != prepared.atomic {
            assert(prepared.groups@[at as int].atomic != prepared.atomic);
            return Err(PushAtomicPublicationError::Binding);
        }
        at = at + 1;
    }
    Ok(())
}

/// The structural prerequisite of a prepared push.
pub open spec fn structural_of(prepared: PreparedPush) -> PushStructuralPublicationPrerequisite {
    if prepared.structural_objects == 0 {
        PushStructuralPublicationPrerequisite::Satisfied
    } else {
        PushStructuralPublicationPrerequisite::DeferredCanonicalIndex {
            objects: prepared.structural_objects as u32,
        }
    }
}

/// Compute the structural prerequisite.
pub fn structural_prerequisite(prepared: &PreparedPush) -> (result: Result<
    PushStructuralPublicationPrerequisite,
    PushAtomicPublicationError,
>)
    ensures
        result == if prepared.structural_objects <= u32::MAX {
            Ok::<PushStructuralPublicationPrerequisite, PushAtomicPublicationError>(
                structural_of(*prepared),
            )
        } else {
            Err(PushAtomicPublicationError::Binding)
        },
{
    if prepared.structural_objects == 0 {
        return Ok(PushStructuralPublicationPrerequisite::Satisfied);
    }
    if prepared.structural_objects as u64 > u32::MAX as u64 {
        return Err(PushAtomicPublicationError::Binding);
    }
    Ok(
        PushStructuralPublicationPrerequisite::DeferredCanonicalIndex {
            objects: prepared.structural_objects as u32,
        },
    )
}

/// The ancestry of a command, if it was prepared.
pub open spec fn ancestry_of(prepared: PreparedPush, command: PreparedCommand) -> Option<
    PreparedAncestryContext,
> {
    let place = command.ordinal as int;
    if place < prepared.ancestry@.len() && prepared.ancestry@[place].command_ordinal
        == command.ordinal {
        Some(prepared.ancestry@[place])
    } else {
        None
    }
}

/// Find the ancestry of a command.
fn find_ancestry(prepared: &PreparedPush, command: &PreparedCommand) -> (ancestry: Option<
    PreparedAncestryContext,
>)
    ensures
        ancestry == ancestry_of(*prepared, *command),
{
    if (command.ordinal as u64) < prepared.ancestry.len() as u64 {
        let found = prepared.ancestry[command.ordinal as usize];
        if found.command_ordinal == command.ordinal {
            return Some(found);
        }
    }
    None
}

/// The commands and the evidence cannot be published at all.
pub open spec fn early_fault(
    prepared: PreparedPush,
    promotion: Option<PromotionReceiptBinding>,
    limits: PushAtomicPublicationLimits,
) -> bool {
    ||| prepared.commands@.len() == 0
    ||| prepared.commands@.len() > limits.max_commands
    ||| !bindings_hold(prepared, promotion)
}

/// Something is found missing while the transaction is put together.
pub open spec fn late_fault(prepared: PreparedPush) -> bool {
    ||| prepared.structural_objects > u32::MAX
    ||| exists|k: int|
        0 <= k < prepared.commands@.len() && ancestry_of(
            prepared,
            #[trigger] prepared.commands@[k],
        ) is None
}

/// A policy sees the command as it was prepared.
pub open spec fn update_shows(update: PolicyRefUpdate, command: PreparedCommand) -> bool {
    &&& update.refname@ == command.refname@
    &&& update.old_oid == command.old_oid
    &&& update.new_oid == command.new_oid
    &&& update.kind == command.kind
}

/// Show a command to a policy.
fn show_update(command: &PreparedCommand) -> (update: PolicyRefUpdate)
    ensures
        update_shows(update, *command),
{
    PolicyRefUpdate {
        refname: command.refname.clone(),
        old_oid: command.old_oid,
        new_oid: command.new_oid,
        kind: command.kind,
    }
}

/// Copy object identities.
fn clone_object_ids(oids: &Vec<ObjectId>) -> (copy: Vec<ObjectId>)
    ensures
        copy@ == oids@,
{
    let mut copy: Vec<ObjectId> = Vec::new();
    let mut at: usize = 0;
    while at < oids.len()
        invariant
            at <= oids@.len(),
            copy@ == oids@.take(at as int),
        decreases oids.len() - at,
    {
        copy.push(oids[at]);
        at = at + 1;
        assert(copy@ =~= oids@.take(at as int));
    }
    assert(oids@.take(at as int) =~= oids@);
    copy
}

/// A policy sees the whole push as it was prepared.
pub open spec fn context_shows(
    context: PushPolicyContext,
    prepared: PreparedPush,
    actor: PolicyActor,
) -> bool {
    &&& context.tenant == prepared.tenant
    &&& context.repository == prepared.repository
    &&& context.actor == actor
    &&& context.updates@.len() == prepared.commands@.len()
    &&& forall|k: int|
        0 <= k < prepared.commands@.len() ==> update_shows(
            #[trigger] context.updates@[k],
            prepared.commands@[k],
        )
    &&& context.pushed_commits@ == prepared.pushed_commits@
}

/// Show a push to a policy.
pub fn policy_context(prepared: &PreparedPush, actor: PolicyActor) -> (context: PushPolicyContext)
    ensures
        context_shows(context, *prepared, actor),
{
    let mut updates: Vec<PolicyRefUpdate> = Vec::new();
    let mut at: usize = 0;
    while at < prepared.commands.len()
        invariant
            at <= prepared.commands@.len(),
            updates@.len() == at,
            forall|k: int|
                0 <= k < at ==> update_shows(#[trigger] updates@[k], prepared.commands@[k]),
        decreases prepared.commands.len() - at,
    {
        updates.push(show_update(&prepared.commands[at]));
        at = at + 1;
    }
    PushPolicyContext {
        tenant: prepared.tenant.clone(),
        repository: prepared.repository.clone(),
        actor,
        updates,
        pushed_commits: clone_object_ids(&prepared.pushed_commits),
    }
}

/// A policy sees one update as it was prepared.
pub open spec fn update_context_shows(
    context: RefUpdatePolicyContext,
    prepared: PreparedPush,
    actor: PolicyActor,
    command: PreparedCommand,
) -> bool {
    &&& context.tenant == prepared.tenant
    &&& context.repository == prepared.repository
    &&& context.actor == actor
    &&& update_shows(context.update, command)
    &&& context.pushed_commits@ == prepared.pushed_commits@
}

/// The answer of an exchange.
pub open spec fn answer_of(exchange: PolicyExchange) -> Result<PolicyDecision, PolicyFailure> {
    match exchange {
        PolicyExchange::PreReceive(_, answer) => answer,
        PolicyExchange::Update(_, answer) => answer,
    }
}

/// Policies were asked in order, as far as it came: about the whole push first, then about every
/// command while the whole push was allowed, and about nothing after a failure.
pub open spec fn asked_in_order(
    asked: Seq<PolicyExchange>,
    prepared: PreparedPush,
    actor: PolicyActor,
) -> bool {
    &&& asked.len() <= prepared.commands@.len() + 1
    &&& asked.len() >= 1 ==> {
        &&& asked[0] matches PolicyExchange::PreReceive(context, _)
        &&& context_shows(context, prepared, actor)
    }
    &&& asked.len() >= 2 ==> answer_of(asked[0]) == Ok::<PolicyDecision, PolicyFailure>(
        PolicyDecision::Allow,
    )
    &&& forall|k: int| 1 <= k < asked.len() ==> asked_about(#[trigger] asked[k], prepared, actor, k)
    &&& forall|k: int| 0 <= k < asked.len() - 1 ==> answer_of(#[trigger] asked[k]) is Ok
}

/// The exchange is about the command before place `k`.
pub open spec fn asked_about(
    exchange: PolicyExchange,
    prepared: PreparedPush,
    actor: PolicyActor,
    k: int,
) -> bool {
    &&& exchange matches PolicyExchange::Update(context, _)
    &&& update_context_shows(context, prepared, actor, prepared.commands@[k - 1])
}

/// Every policy that had to be asked has decided.
pub open spec fn fully_answered(asked: Seq<PolicyExchange>, prepared: PreparedPush) -> bool {
    &&& asked.len() >= 1
    &&& forall|k: int| 0 <= k < asked.len() ==> answer_of(#[trigger] asked[k]) is Ok
    &&& asked.len() == if answer_of(asked[0]) == Ok::<PolicyDecision, PolicyFailure>(
        PolicyDecision::Allow,
    ) {
        prepared.commands@.len() + 1
    } else {
        1
    }
}

/// The whole push and the command at place `k` were allowed.
pub open spec fn allowed_at(asked: Seq<PolicyExchange>, k: int) -> bool {
    let allow = Ok::<PolicyDecision, PolicyFailure>(PolicyDecision::Allow);
    answer_of(asked[0]) == allow && answer_of(asked[k + 1]) == allow
}

/// The transaction's command is the prepared one with its ancestry and its policy answer.
pub open spec fn command_exact(
    command: PushPublicationCommand,
    prepared: PreparedPush,
    source: PreparedCommand,
    allowed: bool,
) -> bool {
    &&& command.ordinal == source.ordinal
    &&& command.refname@ == source.refname@
    &&& command.expected == source.expected
    &&& command.new_oid == if source.new_oid.spec_is_zero() {
        None
    } else {
        Some(source.new_oid)
    }
    &&& command.kind == source.kind
    &&& command.policy_allowed == allowed
    &&& ancestry_of(prepared, source) == Some(command.ancestry)
}

/// Every command is exact.
pub open spec fn commands_exact(
    commands: Seq<PushPublicationCommand>,
    prepared: PreparedPush,
    asked: Seq<PolicyExchange>,
) -> bool {
    forall|k: int|
        0 <= k < commands.len() ==> command_exact(
            #[trigger] commands[k],
            prepared,
            prepared.commands@[k],
            allowed_at(asked, k),
        )
}

/// What asking the policies came to.
enum PolicyOutcome {
    /// Every policy decided.
    Decided(Vec<PushPublicationCommand>),
    /// A policy came to no decision.
    Undecided,
}

/// Ask every policy, and put the commands together.
fn ask_policies<P: PushPolicy, W: PushAtomicPublicationWork, C: PushAtomicPublicationControl>(
    prepared: &PreparedPush,
    actor: &PolicyActor,
    policy: &mut P,
    limits: &PushAtomicPublicationLimits,
    work: &mut W,
    control: &mut C,
    last_observed: &mut Timestamp,
) -> (result: Result<PolicyOutcome, PushAtomicPublicationError>)
    requires
        seen_at::<C>(*limits, *old(last_observed)),
    ensures
        seen_at::<C>(*limits, *final(last_observed)),
        final(policy).exchanges().len() >= old(policy).exchanges().len(),
        final(policy).exchanges().take(old(policy).exchanges().len() as int) == old(policy).exchanges(),
        asked_in_order(
            final(policy).exchanges().skip(old(policy).exchanges().len() as int),
            *prepared,
            *actor,
        ),
        result is Ok ==> cleared::<W, C>(*limits, 1),
        final(policy).exchanges().len() > old(policy).exchanges().len() + 1 ==> cleared::<W, C>(
            *limits,
            1,
        ) && cleared::<W, C>(*limits, prepared.pushed_commits@.len() as u64),
        match result {
            Ok(PolicyOutcome::Decided(commands)) => {
                let asked = final(policy).exchanges().skip(old(policy).exchanges().len() as int);
                &&& fully_answered(asked, *prepared)
                &&& commands@.len() == prepared.commands@.len()
                &&& commands_exact(commands@, *prepared, asked)
            },
            Ok(PolicyOutcome::Undecided) => {
                let asked = final(policy).exchanges().skip(old(policy).exchanges().len() as int);
                asked.len() >= 1 && answer_of(asked.last()) is Err
            },
            Err(error) => publication_stopped::<W, C>(*prepared, *limits, error) || (error == PushAtomicPublicationError::Binding
                && late_fault(*prepared)),
        },
        work_kept(
            old(work).allowance(),
            final(work).allowance(),
            result is Err && result->Err_0 == PushAtomicPublicationError::WorkBudget,
            1 + prepared.commands@.len() as int * (prepared.pushed_commits@.len() + 1),
        ),
{
    let ghost before = policy.exchanges();
    let ghost base = before.len() as int;
    let context = policy_context(prepared, actor.clone());
    let pre_receive_result = policy.pre_receive(&context);
    let ghost mut asked: Seq<PolicyExchange> = seq![
        PolicyExchange::PreReceive(context, pre_receive_result),
    ];
    proof {
        assert(policy.exchanges() =~= before + asked);
        assert(policy.exchanges().take(base) =~= before);
        assert(policy.exchanges().skip(base) =~= asked);
    }
    checkpoint(limits, work, control, last_observed, 1)?;
    let pre_receive_allowed: bool = match pre_receive_result {
        Ok(decision) => decision == PolicyDecision::Allow,
        Err(_) => {
            return Ok(PolicyOutcome::Undecided);
        },
    };
    let mut commands: Vec<PushPublicationCommand> = Vec::new();
    let mut at: usize = 0;
    let ghost share = (prepared.pushed_commits@.len() + 1) as int;
    let ghost count = prepared.commands@.len() as int;
    while at < prepared.commands.len()
        invariant
            count == prepared.commands@.len(),
            share == prepared.pushed_commits@.len() + 1,
            work_kept(old(work).allowance(), work.allowance(), false, 1 + at * share),
            seen_at::<C>(*limits, *last_observed),
            at <= prepared.commands@.len(),
            commands@.len() == at,
            before == old(policy).exchanges(),
            base == before.len(),
            policy.exchanges() == before + asked,
            policy.exchanges().take(base) == before,
            policy.exchanges().skip(base) == asked,
            asked_in_order(asked, *prepared, *actor),
            asked.len() == if pre_receive_allowed {
                at + 1
            } else {
                1
            },
            pre_receive_allowed == (answer_of(asked[0]) == Ok::<PolicyDecision, PolicyFailure>(
                PolicyDecision::Allow,
            )),
            forall|k: int| 0 <= k < asked.len() ==> answer_of(#[trigger] asked[k]) is Ok,
            commands_exact(commands@, *prepared, asked),
            cleared::<W, C>(*limits, 1),
            asked.len() > 1 ==> cleared::<W, C>(*limits, prepared.pushed_commits@.len() as u64),
        decreases prepared.commands.len() - at,
    {
        proof {
            assert(at * share + share == (at + 1) * share) by (nonlinear_arith);
            assert((at + 1) * share <= count * share) by (nonlinear_arith)
                requires
                    at + 1 <= count,
                    share >= 0,
            ;
        }
        let command = &prepared.commands[at];
        let ancestry = match find_ancestry(prepared, command) {
            Some(ancestry) => ancestry,
            None => {
                assert(ancestry_of(*prepared, prepared.commands@[at as int]) is None);
                return Err(PushAtomicPublicationError::Binding);
            },
        };
        let mut policy_allowed: bool = pre_receive_allowed;
        let ghost earlier = asked;
        if policy_allowed {
            checkpoint(
                limits,
                work,
                control,
                last_observed,
                prepared.pushed_commits.len() as u64,
            )?;
            let update_context = RefUpdatePolicyContext {
                tenant: prepared.tenant.clone(),
                repository: prepared.repository.clone(),
                actor: actor.clone(),
                update: show_update(command),
                pushed_commits: clone_object_ids(&prepared.pushed_commits),
            };
            let update_result = policy.update(&update_context);
            proof {
                let exchange = PolicyExchange::Update(update_context, update_result);
                asked = earlier.push(exchange);
                assert(policy.exchanges() =~= before + asked);
                assert(policy.exchanges().take(base) =~= before);
                assert(policy.exchanges().skip(base) =~= asked);
                assert(asked[0] == earlier[0]);
                assert(asked_about(exchange, *prepared, *actor, at + 1));
                assert forall|k: int| 1 <= k < asked.len() implies asked_about(
                    #[trigger] asked[k],
                    *prepared,
                    *actor,
                    k,
                ) by {
                    if k < earlier.len() {
                        assert(asked[k] == earlier[k]);
                    }
                }
                assert forall|k: int| 0 <= k < asked.len() - 1 implies answer_of(
                    #[trigger] asked[k],
                ) is Ok by {
                    assert(asked[k] == earlier[k]);
                }
                assert(asked_in_order(asked, *prepared, *actor));
                assert(asked.last() == exchange);
            }
            checkpoint(limits, work, control, last_observed, 1)?;
            policy_allowed = match update_result {
                Ok(decision) => decision == PolicyDecision::Allow,
                Err(_) => {
                    return Ok(PolicyOutcome::Undecided);
                },
            };
        }
        let ghost made = commands@;
        commands.push(
            PushPublicationCommand {
                ordinal: command.ordinal,
                refname: command.refname.clone(),
                expected: command.expected,
                new_oid: if command.new_oid.is_zero() {
                    None
                } else {
                    Some(command.new_oid)
                },
                kind: command.kind,
                policy_allowed,
                ancestry,
            },
        );
        proof {
            assert forall|k: int| 0 <= k < commands@.len() implies command_exact(
                #[trigger] commands@[k],
                *prepared,
                prepared.commands@[k],
                allowed_at(asked, k),
            ) by {
                if k < at {
                    assert(commands@[k] == made[k]);
                    assert(command_exact(
                        made[k],
                        *prepared,
                        prepared.commands@[k],
                        allowed_at(earlier, k),
                    ));
                    if pre_receive_allowed {
                        assert(asked[k + 1] == earlier[k + 1]);
                        assert(asked[0] == earlier[0]);
                    }
                }
            }
        }
        at = at + 1;
    }
    Ok(PolicyOutcome::Decided(commands))
}

/// The audit payload is that of the prepared push.
pub open spec fn audit_exact(
    audit: PushPublicationAudit,
    prepared: PreparedPush,
    actor: PolicyActor,
    timestamp: Timestamp,
) -> bool {
    &&& audit.tenant == prepared.tenant
    &&& audit.repository == prepared.repository
    &&& audit.prepared_fingerprint == prepared.fingerprint
    &&& audit.summary == prepared.audit_summary
    &&& audit.actor_id@ == actor.id@
    &&& audit.timestamp == timestamp
}

/// The transaction is exactly what was prepared, promoted and decided.
pub open spec fn transaction_exact(
    transaction: PushPublicationTransaction,
    prepared: PreparedPush,
    promotion: Option<PromotionReceiptBinding>,
    actor: PolicyActor,
    timestamp: Timestamp,
    asked: Seq<PolicyExchange>,
) -> bool {
    &&& transaction.tenant == prepared.tenant
    &&& transaction.repository == prepared.repository
    &&& transaction.hash_algo == prepared.hash_algo
    &&& transaction.repository_generation == prepared.repository_generation
    &&& transaction.prepared_fingerprint == prepared.fingerprint
    &&& transaction.promotion == promotion
    &&& transaction.atomic == prepared.atomic
    &&& transaction.commands@.len() == prepared.commands@.len()
    &&& commands_exact(transaction.commands@, prepared, asked)
    &&& transaction.reflog_identity@ == actor.reflog_identity@
    &&& transaction.timestamp == timestamp
    &&& audit_exact(transaction.audit, prepared, actor, timestamp)
    &&& transaction.structural == structural_of(prepared)
}

/// What the backend is asked once the policies have been: to publish exactly what they decided, or
/// to record that one of them came to no decision.
pub open spec fn request_exact(
    request: PushPublicationRequest,
    prepared: PreparedPush,
    promotion: Option<PromotionReceiptBinding>,
    actor: PolicyActor,
    timestamp: Timestamp,
    asked: Seq<PolicyExchange>,
) -> bool {
    match request {
        PushPublicationRequest::Publish(transaction) => {
            &&& fully_answered(asked, prepared)
            &&& !late_fault(prepared)
            &&& transaction_exact(transaction, prepared, promotion, actor, timestamp, asked)
        },
        PushPublicationRequest::Reject(audit, reason) => {
            &&& asked.len() >= 1
            &&& answer_of(asked.last()) is Err
            &&& audit_exact(audit, prepared, actor, timestamp)
            &&& reason == PushPublicationRejection::Policy
        },
    }
}

/// The evidence of an optional receipt.
pub open spec fn bound_of<R: PushPromotionReceipt>(promotion: Option<&R>) -> Option<
    PromotionReceiptBinding,
> {
    match promotion {
        Some(receipt) => Some(receipt.bound()),
        None => None,
    }
}

/// Ask every policy about a prepared push, then publish it in one guarded transaction.
///
/// Policies see metadata alone. Time and cancellation are observed before and after every policy
/// and once more before the backend is called; what the backend returns is never taken for a
/// cancellation.
pub fn publish_prepared_push<
    B: PushAtomicPublicationBackend,
    P: PushPolicy,
    R: PushPromotionReceipt,
    W: PushAtomicPublicationWork,
    C: PushAtomicPublicationControl,
>(
    backend: &mut B,
    prepared: &PreparedPush,
    promotion: Option<&R>,
    actor: PolicyActor,
    timestamp: Timestamp,
    policy: &mut P,
    limits: PushAtomicPublicationLimits,
    work: &mut W,
    control: &mut C,
) -> (result: Result<PushPublicationReport, PushAtomicPublicationError>)
    ensures
        final(policy).exchanges().len() >= old(policy).exchanges().len(),
        final(policy).exchanges().take(old(policy).exchanges().len() as int) == old(policy).exchanges(),
        asked_in_order(
            final(policy).exchanges().skip(old(policy).exchanges().len() as int),
            *prepared,
            actor,
        ),
        !limits.valid() || early_fault(*prepared, bound_of(promotion), limits) ==> final(policy).exchanges() == old(policy).exchanges() && final(backend).requests() == old(backend).requests(),
        final(policy).exchanges().len() > old(policy).exchanges().len() ==> cleared::<W, C>(
            limits,
            1,
        ),
        final(policy).exchanges().len() > old(policy).exchanges().len() + 1 ==> cleared::<W, C>(
            limits,
            prepared.pushed_commits@.len() as u64,
        ),
        final(backend).requests() == old(backend).requests() || {
            &&& cleared::<W, C>(limits, 1)
            &&& final(backend).requests().last() is Publish ==> cleared::<W, C>(
                limits,
                prepared.commands@.len() as u64,
            )
            &&& final(backend).requests() == old(backend).requests().push(
                final(backend).requests().last(),
            )
            &&& request_exact(
                final(backend).requests().last(),
                *prepared,
                bound_of(promotion),
                actor,
                timestamp,
                final(policy).exchanges().skip(old(policy).exchanges().len() as int),
            )
        },
        work_kept(
            old(work).allowance(),
            final(work).allowance(),
            result is Err && result->Err_0 == PushAtomicPublicationError::WorkBudget,
            publication_work(*prepared),
        ),
        match result {
            Ok(report) => final(backend).requests().len() == old(backend).requests().len() + 1
                && report_answered(*final(backend), report),
            Err(error) => {
                ||| error == PushAtomicPublicationError::InvalidLimits && !limits.valid()
                ||| publication_stopped::<W, C>(*prepared, limits, error) && limits.valid() && final(backend).requests() == old(backend).requests()
                ||| error == PushAtomicPublicationError::Binding && limits.valid() && (early_fault(
                    *prepared,
                    bound_of(promotion),
                    limits,
                ) || late_fault(*prepared)) && final(backend).requests() == old(backend).requests()
                ||| error == PushAtomicPublicationError::Policy && final(backend).requests().len()
                    == old(backend).requests().len() + 1 && rejection_recorded(*final(backend))
                ||| error == PushAtomicPublicationError::Backend && final(backend).requests().len()
                    == old(backend).requests().len() + 1 && request_failed(*final(backend))
            },
        },
{
    let ghost unasked = policy.exchanges();
    proof {
        assert(unasked.take(unasked.len() as int) =~= unasked);
        assert(unasked.skip(unasked.len() as int) =~= Seq::<PolicyExchange>::empty());
        assert(asked_in_order(Seq::<PolicyExchange>::empty(), *prepared, actor));
    }
    if let Err(error) = limits.validate() {
        return Err(error);
    }
    let mut last_observed = limits.started_at;
    checkpoint(&limits, work, control, &mut last_observed, 1)?;
    if prepared.commands.len() == 0 || prepared.commands.len() > limits.max_commands {
        return Err(PushAtomicPublicationError::Binding);
    }
    let bound: Option<PromotionReceiptBinding> = match promotion {
        Some(receipt) => Some(receipt.publication_binding()),
        None => None,
    };
    assert(bound == bound_of(promotion));
    if let Err(error) = validate_bindings(prepared, &bound) {
        return Err(error);
    }
    let audit = PushPublicationAudit {
        tenant: prepared.tenant.clone(),
        repository: prepared.repository.clone(),
        prepared_fingerprint: prepared.fingerprint,
        summary: prepared.audit_summary,
        actor_id: actor.id.clone(),
        timestamp,
    };
    let outcome = ask_policies(
        prepared,
        &actor,
        policy,
        &limits,
        work,
        control,
        &mut last_observed,
    )?;
    let ghost asked = policy.exchanges().skip(unasked.len() as int);
    let commands: Vec<PushPublicationCommand> = match outcome {
        PolicyOutcome::Decided(commands) => commands,
        PolicyOutcome::Undecided => {
            let recorded = backend.record_rejection(audit, PushPublicationRejection::Policy);
            return match recorded {
                Ok(done) => {
                    assert(done == ());
                    Err(PushAtomicPublicationError::Policy)
                },
                Err(failure) => {
                    assert(failure == PushPublicationBackendError);
                    Err(PushAtomicPublicationError::Backend)
                },
            };
        },
    };
    checkpoint(&limits, work, control, &mut last_observed, commands.len() as u64)?;
    let structural = structural_prerequisite(prepared)?;
    proof {
        assert forall|k: int| 0 <= k < prepared.commands@.len() implies ancestry_of(
            *prepared,
            #[trigger] prepared.commands@[k],
        ) is Some by {
            assert(command_exact(
                commands@[k],
                *prepared,
                prepared.commands@[k],
                allowed_at(asked, k),
            ));
        }
        assert(!late_fault(*prepared));
    }
    let transaction = PushPublicationTransaction {
        tenant: prepared.tenant.clone(),
        repository: prepared.repository.clone(),
        hash_algo: prepared.hash_algo,
        repository_generation: prepared.repository_generation,
        prepared_fingerprint: prepared.fingerprint,
        promotion: bound,
        atomic: prepared.atomic,
        commands,
        reflog_identity: actor.reflog_identity.clone(),
        timestamp,
        audit,
        structural,
    };
    match backend.publish_transaction(transaction) {
        Ok(report) => Ok(report),
        Err(failure) => {
            assert(failure == PushPublicationBackendError);
            Err(PushAtomicPublicationError::Backend)
        },
    }
}

/// One reflog entry.
#[derive(Debug)]
pub struct ReflogEntry {
    /// Ref name.
    pub refname: String,
    /// Object before.
    pub old_oid: ObjectId,
    /// Object afterwards.
    pub new_oid: ObjectId,
    /// Identity.
    pub actor: String,
    /// Event time.
    pub timestamp: Timestamp,
    /// Message.
    pub message: String,
}

/// The reflog message of a command.
pub open spec fn reflog_message(kind: PushCommandKind) -> Seq<char> {
    match kind {
        PushCommandKind::Create => "push create"@,
        PushCommandKind::Update => "push update"@,
        PushCommandKind::Delete => "push delete"@,
    }
}

/// Write the reflog entry of a command; an absent object is spelled as the null identity.
pub fn command_reflog(
    command: &PushPublicationCommand,
    hash_algo: HashAlgo,
    actor: &String,
    timestamp: Timestamp,
) -> (entry: ReflogEntry)
    ensures
        entry.refname@ == command.refname@,
        entry.old_oid == match command.expected {
            Some(oid) => oid,
            None => ObjectId::spec_null(hash_algo),
        },
        entry.new_oid == match command.new_oid {
            Some(oid) => oid,
            None => ObjectId::spec_null(hash_algo),
        },
        entry.actor@ == actor@,
        entry.timestamp == timestamp,
        entry.message@ == reflog_message(command.kind),
{
    ReflogEntry {
        refname: command.refname.clone(),
        old_oid: match command.expected {
            Some(oid) => oid,
            None => ObjectId::null(hash_algo),
        },
        new_oid: match command.new_oid {
            Some(oid) => oid,
            None => ObjectId::null(hash_algo),
        },
        actor: actor.clone(),
        timestamp,
        message: match command.kind {
            PushCommandKind::Create => "push create".to_owned(),
            PushCommandKind::Update => "push update".to_owned(),
            PushCommandKind::Delete => "push delete".to_owned(),
        },
    }
}

} // verus!
