//! What holds between the policies that judge a push, the transaction that is published, and the
//! report that the client reads.

use crate::clock::Timestamp;
use crate::push_atomic_publication::{
    allowed_at, ancestry_of, answer_of, asked_about, asked_in_order, command_exact, early_fault,
    evidence_binding, flush_packet, fully_answered, late_fault, line_packet, ng_word, ok_word,
    packet, reflog_message, report_bytes, report_fault, request_exact, status_packets, status_text,
    structural_of, transaction_exact, unpack_text, PolicyActor, PolicyDecision, PolicyExchange,
    PolicyFailure, PromotionReceiptBinding, PushAtomicPublicationLimits, PushPublicationAudit,
    PushPublicationCommandOutcome, PushPublicationCommandStatus, PushPublicationRejection,
    PushPublicationRequest, PushPublicationTransaction, PushStructuralPublicationPrerequisite,
};
use crate::pack_promotion::PromotionEvidence;
use crate::push_prepared::{PreparedPush, PushCommandKind};
use vstd::prelude::*;
use vstd::utf8::encode_utf8;

verus! {

/// Policies are shown every command in its place and in its own direction: the value before it as
/// the old one, the value after it as the new one; under its name and kind, for the actor and the
/// repository of the push, with all of its commits.
pub proof fn law_policies_see_the_push(
    asked: Seq<PolicyExchange>,
    prepared: PreparedPush,
    actor: PolicyActor,
    k: int,
)
    requires
        asked_in_order(asked, prepared, actor),
        0 <= k < asked.len(),
    ensures
        k == 0 <==> asked[k] is PreReceive,
        match asked[k] {
            PolicyExchange::PreReceive(context, _) => {
                &&& context.tenant == prepared.tenant
                &&& context.repository == prepared.repository
                &&& context.actor == actor
                &&& context.pushed_commits@ == prepared.pushed_commits@
                &&& context.updates@.len() == prepared.commands@.len()
                &&& forall|i: int|
                    0 <= i < prepared.commands@.len() ==> {
                        &&& (#[trigger] context.updates@[i]).refname@
                            == prepared.commands@[i].refname@
                        &&& context.updates@[i].old_oid == prepared.commands@[i].old_oid
                        &&& context.updates@[i].new_oid == prepared.commands@[i].new_oid
                        &&& context.updates@[i].kind == prepared.commands@[i].kind
                    }
            },
            PolicyExchange::Update(context, _) => {
                &&& context.tenant == prepared.tenant
                &&& context.repository == prepared.repository
                &&& context.actor == actor
                &&& context.pushed_commits@ == prepared.pushed_commits@
                &&& context.update.refname@ == prepared.commands@[k - 1].refname@
                &&& context.update.old_oid == prepared.commands@[k - 1].old_oid
                &&& context.update.new_oid == prepared.commands@[k - 1].new_oid
                &&& context.update.kind == prepared.commands@[k - 1].kind
            },
        },
{
    if k >= 1 {
        assert(asked_about(asked[k], prepared, actor, k));
    }
}

/// What is written is what the policies were shown: the new identity of each update, where it is not
/// zero, is the one that the transaction writes under the same name; and a command is allowed
/// exactly where the push and this very update were.
pub proof fn law_policies_judge_what_is_written(
    transaction: PushPublicationTransaction,
    prepared: PreparedPush,
    promotion: Option<PromotionReceiptBinding>,
    actor: PolicyActor,
    timestamp: Timestamp,
    asked: Seq<PolicyExchange>,
    k: int,
)
    requires
        asked_in_order(asked, prepared, actor),
        request_exact(
            PushPublicationRequest::Publish(transaction),
            prepared,
            promotion,
            actor,
            timestamp,
            asked,
        ),
        0 <= k < transaction.commands@.len(),
    ensures
        ({
            let command = transaction.commands@[k];
            let allow = Ok::<PolicyDecision, PolicyFailure>(PolicyDecision::Allow);
            &&& asked.len() >= 1
            &&& answer_of(asked[0]) == allow ==> {
                &&& asked.len() == transaction.commands@.len() + 1
                &&& asked[k + 1] matches PolicyExchange::Update(context, answer)
                &&& context.update.refname@ == command.refname@
                &&& context.update.kind == command.kind
                &&& context.update.new_oid.spec_is_zero() ==> command.new_oid is None
                &&& !context.update.new_oid.spec_is_zero() ==> command.new_oid == Some(
                    context.update.new_oid,
                )
                &&& command.policy_allowed <==> answer == allow
            }
            &&& answer_of(asked[0]) != allow ==> !command.policy_allowed && asked.len() == 1
        }),
{
    let command = transaction.commands@[k];
    assert(command_exact(command, prepared, prepared.commands@[k], allowed_at(asked, k)));
    if answer_of(asked[0]) == Ok::<PolicyDecision, PolicyFailure>(PolicyDecision::Allow) {
        assert(asked_about(asked[k + 1], prepared, actor, k + 1));
    }
}

/// The transaction is the prepared push: the same repository, generation, fingerprint and evidence,
/// all or nothing where the client asked for it, and every command in its place under the value that
/// its ref must have and with its own ancestry.
pub proof fn law_transaction_is_the_prepared_push(
    transaction: PushPublicationTransaction,
    prepared: PreparedPush,
    promotion: Option<PromotionReceiptBinding>,
    actor: PolicyActor,
    timestamp: Timestamp,
    asked: Seq<PolicyExchange>,
)
    requires
        transaction_exact(transaction, prepared, promotion, actor, timestamp, asked),
    ensures
        transaction.tenant == prepared.tenant,
        transaction.repository == prepared.repository,
        transaction.hash_algo == prepared.hash_algo,
        transaction.repository_generation == prepared.repository_generation,
        transaction.prepared_fingerprint == prepared.fingerprint,
        transaction.promotion == promotion,
        transaction.atomic == prepared.atomic,
        transaction.reflog_identity@ == actor.reflog_identity@,
        transaction.timestamp == timestamp,
        transaction.audit.tenant == prepared.tenant,
        transaction.audit.repository == prepared.repository,
        transaction.audit.prepared_fingerprint == prepared.fingerprint,
        transaction.audit.summary == prepared.audit_summary,
        transaction.audit.actor_id@ == actor.id@,
        transaction.audit.timestamp == timestamp,
        transaction.commands@.len() == prepared.commands@.len(),
        forall|k: int|
            0 <= k < transaction.commands@.len() ==> {
                let command = #[trigger] transaction.commands@[k];
                let source = prepared.commands@[k];
                &&& command.ordinal == source.ordinal
                &&& command.refname@ == source.refname@
                &&& command.expected == source.expected
                &&& command.kind == source.kind
                &&& command.new_oid is Some <==> !source.new_oid.spec_is_zero()
                &&& command.new_oid matches Some(oid) ==> oid == source.new_oid
                &&& command.ancestry.command_ordinal == source.ordinal
                &&& command.ancestry == prepared.ancestry@[source.ordinal as int]
            },
        prepared.structural_objects == 0 <==> transaction.structural
            == PushStructuralPublicationPrerequisite::Satisfied,
{
    assert forall|k: int| 0 <= k < transaction.commands@.len() implies command_exact(
        #[trigger] transaction.commands@[k],
        prepared,
        prepared.commands@[k],
        allowed_at(asked, k),
    ) by {}
}

/// A push whose policy came to no decision is only recorded as rejected by policy; one whose
/// policies all decided is never recorded so.
pub proof fn law_undecided_pushes_are_recorded(
    audit: PushPublicationAudit,
    reason: PushPublicationRejection,
    prepared: PreparedPush,
    promotion: Option<PromotionReceiptBinding>,
    actor: PolicyActor,
    timestamp: Timestamp,
    asked: Seq<PolicyExchange>,
)
    requires
        request_exact(
            PushPublicationRequest::Reject(audit, reason),
            prepared,
            promotion,
            actor,
            timestamp,
            asked,
        ),
    ensures
        reason == PushPublicationRejection::Policy,
        !fully_answered(asked, prepared),
        audit.prepared_fingerprint == prepared.fingerprint,
        audit.actor_id@ == actor.id@,
        audit.timestamp == timestamp,
        audit.summary == prepared.audit_summary,
        audit.tenant == prepared.tenant && audit.repository == prepared.repository,
{
    if fully_answered(asked, prepared) {
        assert(answer_of(asked[asked.len() - 1]) is Ok);
    }
}

/// Policies are asked until one does not answer: about the whole push first, and about single
/// updates only where that was allowed.
pub proof fn law_nothing_is_asked_after_a_refusal(
    asked: Seq<PolicyExchange>,
    prepared: PreparedPush,
    actor: PolicyActor,
    k: int,
)
    requires
        asked_in_order(asked, prepared, actor),
        0 <= k < asked.len(),
    ensures
        answer_of(asked[k]) is Err ==> k == asked.len() - 1,
        k >= 1 ==> answer_of(asked[0]) == Ok::<PolicyDecision, PolicyFailure>(
            PolicyDecision::Allow,
        ),
        asked.len() <= prepared.commands@.len() + 1,
{
}

/// Evidence that names the tenant, the repository, the quarantine, its generation, the repository
/// generation, the fingerprint, both checksums, the count and the size of a prepared push is
/// accepted; evidence that differs in any of these is not.
pub proof fn law_evidence_must_agree(
    prepared: PreparedPush,
    receipt: PromotionReceiptBinding,
    limits: PushAtomicPublicationLimits,
)
    requires
        1 <= prepared.commands@.len() <= limits.max_commands,
        prepared.groups@.len() == if prepared.atomic {
            1
        } else {
            prepared.commands@.len()
        },
        forall|i: int|
            0 <= i < prepared.groups@.len() ==> (#[trigger] prepared.groups@[i]).atomic
                == prepared.atomic,
    ensures
        ({
            let manifest = prepared.quarantine.manifest;
            &&& early_fault(prepared, Some(receipt), limits) <==> {
                ||| manifest.pack_checksum is None
                ||| receipt.tenant@ != prepared.tenant@
                ||| receipt.repository@ != prepared.repository@
                ||| receipt.quarantine_id != prepared.quarantine.id
                ||| receipt.quarantine_generation != prepared.quarantine.generation
                ||| receipt.repository_generation != prepared.repository_generation
                ||| receipt.prepared_fingerprint != prepared.fingerprint
                ||| manifest.pack_checksum != Some(receipt.pack_checksum)
                ||| manifest.index_checksum != Some(receipt.index_checksum)
                ||| manifest.object_count != receipt.object_count
                ||| manifest.pack_bytes != receipt.size_bytes
            }
            &&& early_fault(prepared, None, limits) <==> manifest.pack_checksum is Some
        }),
{
}

/// A push without commands, with too many, or with groups other than the client asked for is never
/// published.
pub proof fn law_misgrouped_pushes_are_refused(
    prepared: PreparedPush,
    promotion: Option<PromotionReceiptBinding>,
    limits: PushAtomicPublicationLimits,
)
    requires
        prepared.commands@.len() == 0 || prepared.commands@.len() > limits.max_commands || (
        prepared.atomic && prepared.groups@.len() != 1) || (!prepared.atomic
            && prepared.groups@.len() != prepared.commands@.len()) || exists|i: int|
            0 <= i < prepared.groups@.len() && (#[trigger] prepared.groups@[i]).atomic
                != prepared.atomic,
    ensures
        early_fault(prepared, promotion, limits),
{
}

/// Promotion evidence is handed on as it is.
pub proof fn law_evidence_is_handed_on(evidence: PromotionEvidence)
    ensures
        ({
            let binding = evidence_binding(evidence);
            &&& binding.tenant == evidence.tenant
            &&& binding.repository == evidence.repository
            &&& binding.quarantine_id == evidence.quarantine_id
            &&& binding.quarantine_generation == evidence.quarantine_generation
            &&& binding.repository_generation == evidence.repository_generation
            &&& binding.pack_checksum == evidence.pack_checksum
            &&& binding.index_checksum == evidence.index_checksum
            &&& binding.prepared_fingerprint == evidence.prepared_fingerprint
            &&& binding.object_count == evidence.object_count
            &&& binding.size_bytes == evidence.size_bytes
            &&& binding.deduplicated == evidence.deduplicated
        }),
{
}

/// A push is found wanting late exactly where some command's ancestry is not at its own place, or
/// where its structural objects cannot be counted.
pub proof fn law_ancestry_must_be_known(prepared: PreparedPush)
    ensures
        late_fault(prepared) <==> {
            ||| prepared.structural_objects > u32::MAX
            ||| exists|k: int|
                0 <= k < prepared.commands@.len() && {
                    let ordinal = (#[trigger] prepared.commands@[k]).ordinal;
                    ordinal >= prepared.ancestry@.len()
                        || prepared.ancestry@[ordinal as int].command_ordinal != ordinal
                }
        },
        prepared.structural_objects <= u32::MAX ==> match structural_of(prepared) {
            PushStructuralPublicationPrerequisite::Satisfied => prepared.structural_objects == 0,
            PushStructuralPublicationPrerequisite::DeferredCanonicalIndex { objects } => objects > 0
                && objects == prepared.structural_objects,
        },
{
    if late_fault(prepared) && prepared.structural_objects <= u32::MAX {
        let k = choose|k: int|
            0 <= k < prepared.commands@.len() && ancestry_of(
                prepared,
                #[trigger] prepared.commands@[k],
            ) is None;
        let ordinal = prepared.commands@[k].ordinal;
        assert(ordinal >= prepared.ancestry@.len()
            || prepared.ancestry@[ordinal as int].command_ordinal != ordinal);
    }
}

/// Bounds may be used exactly where they allow a command and a run that is not empty and not longer
/// than a day.
pub proof fn law_publication_bounds(limits: PushAtomicPublicationLimits)
    ensures
        limits.valid() <==> {
            &&& 1 <= limits.max_commands <= 65_536
            &&& limits.started_at.unix_nanos < limits.deadline.unix_nanos
            &&& limits.deadline.unix_nanos - limits.started_at.unix_nanos <= 86_400_000_000_000
        },
{
}

/// A report tells of one command more by one line more, before its end.
pub proof fn law_report_grows_by_a_line(
    statuses: Seq<PushPublicationCommandStatus>,
    status: PushPublicationCommandStatus,
)
    ensures
        ({
            let before = report_bytes(statuses);
            let end = seq![48u8, 48u8, 48u8, 48u8];
            &&& before.skip(before.len() - 4) == end
            &&& report_bytes(statuses.push(status)) == before.take(before.len() - 4) + packet(
                status_text(status).push(10),
            ) + end
        }),
{
    let before = report_bytes(statuses);
    let body = line_packet(unpack_text()) + status_packets(statuses);
    assert(before =~= body + flush_packet());
    assert(before.take(before.len() - 4) =~= body);
    assert(before.skip(before.len() - 4) =~= flush_packet());
    assert(statuses.push(status).drop_last() =~= statuses);
    assert(report_bytes(statuses.push(status)) =~= body + line_packet(status_text(status))
        + flush_packet());
}

/// A report about no command says that the pack was unpacked, and no more.
pub proof fn law_empty_report_says_unpacked()
    ensures
        report_bytes(Seq::empty()) == packet(ascii("unpack ok\n"@)) + seq![48u8, 48u8, 48u8, 48u8],
{
    reveal_strlit("unpack ok\n");
    assert(unpack_text().push(10) =~= ascii("unpack ok\n"@));
    assert(report_bytes(Seq::empty()) =~= packet(ascii("unpack ok\n"@)) + flush_packet());
}

/// The bytes of text that is ASCII.
pub open spec fn ascii(text: Seq<char>) -> Seq<u8> {
    Seq::new(text.len(), |i: int| text[i] as u8)
}

/// An applied command is told as `ok` and its name, a rejected one as `ng`, its name and the reason.
pub proof fn law_status_lines_tell_the_outcome(status: PushPublicationCommandStatus)
    ensures
        match status.outcome {
            PushPublicationCommandOutcome::Applied => status_text(status) == ascii("ok "@)
                + encode_utf8(status.refname@),
            PushPublicationCommandOutcome::Rejected(reason) => status_text(status) == ascii("ng "@)
                + encode_utf8(status.refname@) + ascii(" "@) + encode_utf8(reason.spec_message()),
        },
{
    reveal_strlit("ok ");
    reveal_strlit("ng ");
    reveal_strlit(" ");
    assert(ok_word() =~= ascii("ok "@));
    assert(ng_word() =~= ascii("ng "@));
    if let PushPublicationCommandOutcome::Rejected(reason) = status.outcome {
        assert(status_text(status) =~= ascii("ng "@) + encode_utf8(status.refname@) + ascii(" "@)
            + encode_utf8(reason.spec_message()));
    }
}

/// The reason that a client is told is the one that holds, and no two reasons are told alike.
pub proof fn law_reasons_are_told_apart(
    one: PushPublicationRejection,
    other: PushPublicationRejection,
)
    ensures
        one.spec_message() == other.spec_message() ==> one == other,
        one.spec_message() == match one {
            PushPublicationRejection::Policy => "policy rejected"@,
            PushPublicationRejection::StaleGeneration => "stale repository generation"@,
            PushPublicationRejection::RefConflict => "reference changed"@,
            PushPublicationRejection::PromotionMissing => "promoted pack unavailable"@,
            PushPublicationRejection::NonFastForward => "non-fast-forward"@,
            PushPublicationRejection::AtomicAborted => "atomic push failed"@,
        },
{
    reveal_strlit("policy rejected");
    reveal_strlit("stale repository generation");
    reveal_strlit("reference changed");
    reveal_strlit("promoted pack unavailable");
    reveal_strlit("non-fast-forward");
    reveal_strlit("atomic push failed");
    assert(one.spec_message().len() != other.spec_message().len() || one == other);
}

/// A report can be written exactly where every name is well formed and starts as a ref, and every
/// line fits a packet.
pub proof fn law_report_is_written_unless_a_line_is_at_fault(
    statuses: Seq<PushPublicationCommandStatus>,
    well_formed: Seq<bool>,
)
    ensures
        report_fault(statuses, well_formed) is None <==> forall|i: int|
            0 <= i < statuses.len() ==> "refs/"@.is_prefix_of((#[trigger] statuses[i]).refname@)
                && well_formed[i] && status_text(statuses[i]).len() < 65_516,
    decreases statuses.len(),
{
    if statuses.len() > 0 {
        let front = statuses.drop_last();
        law_report_is_written_unless_a_line_is_at_fault(front, well_formed);
        assert(forall|i: int| 0 <= i < front.len() ==> front[i] == #[trigger] statuses[i]);
        assert(statuses[statuses.len() - 1] == statuses.last());
        if report_fault(statuses, well_formed) is None {
            assert(report_fault(front, well_formed) is None);
            assert forall|i: int| 0 <= i < statuses.len() implies "refs/"@.is_prefix_of(
                (#[trigger] statuses[i]).refname@,
            ) && well_formed[i] && status_text(statuses[i]).len() < 65_516 by {
                if i < front.len() {
                    assert(front[i] == statuses[i]);
                }
            }
        }
    }
}

/// A reflog tells creation, update and deletion apart.
pub proof fn law_reflog_tells_what_was_done(kind: PushCommandKind)
    ensures
        reflog_message(kind) == match kind {
            PushCommandKind::Create => "push create"@,
            PushCommandKind::Update => "push update"@,
            PushCommandKind::Delete => "push delete"@,
        },
{
}

/// A publication takes two units, and for each command one for each pushed commit and two more.
pub proof fn law_publication_work_is_by_command(prepared: crate::push_prepared::PreparedPush)
    ensures
        crate::push_atomic_publication::publication_work(prepared) == 2 + prepared.commands@.len()
            * (prepared.pushed_commits@.len() + 2),
{
    let count = prepared.commands@.len() as int;
    let commits = prepared.pushed_commits@.len() as int;
    assert(count * (commits + 1) + count == count * (commits + 2)) by (nonlinear_arith);
}

/// Every policy has decided exactly where the whole push was judged and, if it was allowed, every
/// command too; a push that was not allowed is asked about no further.
pub proof fn law_every_command_is_judged(
    asked: Seq<crate::push_atomic_publication::PolicyExchange>,
    prepared: crate::push_prepared::PreparedPush,
)
    requires
        crate::push_atomic_publication::fully_answered(asked, prepared),
    ensures
        asked.len() > 0,
        forall|k: int|
            0 <= k < asked.len() ==> crate::push_atomic_publication::answer_of(#[trigger] asked[k])
                is Ok,
        crate::push_atomic_publication::answer_of(asked[0])->Ok_0 is Allow ==> asked.len()
            == prepared.commands@.len() + 1,
        !(crate::push_atomic_publication::answer_of(asked[0])->Ok_0 is Allow) ==> asked.len() == 1,
{
}

/// A publication goes on where its units were granted by someone who was neither cancelled nor too
/// early nor too late.
pub proof fn law_publication_runs_in_time<
    W: crate::push_atomic_publication::PushAtomicPublicationWork,
    C: crate::push_atomic_publication::PushAtomicPublicationControl,
>(
    limits: crate::push_atomic_publication::PushAtomicPublicationLimits,
    units: u64,
    observation: crate::push_atomic_publication::PushAtomicPublicationObservation,
)
    ensures
        crate::push_atomic_publication::cleared::<W, C>(limits, units) ==> W::answers(units, true)
            && exists|seen: crate::push_atomic_publication::PushAtomicPublicationObservation|
            #[trigger]
            C::observes(seen) && !seen.cancelled && seen.observed_at.unix_nanos
                >= limits.started_at.unix_nanos && seen.observed_at.unix_nanos
                < limits.deadline.unix_nanos,
        C::observes(observation) && !observation.cancelled && observation.observed_at.unix_nanos
            >= limits.started_at.unix_nanos && observation.observed_at.unix_nanos
            < limits.deadline.unix_nanos && W::answers(units, true)
            ==> crate::push_atomic_publication::cleared::<W, C>(limits, units),
{
}

} // verus!
