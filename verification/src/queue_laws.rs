//! What holds of every waiting queue: of what its scopes record, of who may wait and for how long,
//! and of what a budget gives.

use crate::admission::{
    actor_fits, aged_units, asked, blank, moved_back, outcome_of, overdue, repository_scope,
    settled, tenant_scope, trims_to, trimmed_at, waited_nanos, white_space, AdmissionConfigError,
    AdmissionDecision, AdmissionExchange, AdmissionIdentity, AdmissionOutcome, AdmissionRequest,
    AdmissionTicket,
};
use crate::budget::{short_of, spends, spent_within, work_kept};
use crate::clock::{Duration, Timestamp, MAX_DURATION_NANOS, MAX_UNIX_NANOS, MIN_UNIX_NANOS};
use crate::fair_queue::{
    bytes_in, capped, charged, count_in, credit_after, credited, debited, discharged, offer_ended,
    refunded, rotated, slot_bytes, slot_charges, usage_of, QueueSlot, ScopeCharge, ScopeMap,
    ScopeQuota, ScopeUsage,
};
use vstd::prelude::*;

verus! {

/// Those that count in one scope.
pub open spec fn in_scope(key: (Seq<char>, Seq<char>)) -> spec_fn(ScopeCharge) -> bool {
    |charge: ScopeCharge| charge.0 == key
}

/// As many requests count in a scope as charges name it.
pub proof fn law_scope_counts_its_charges(charges: Seq<ScopeCharge>, key: (Seq<char>, Seq<char>))
    ensures
        count_in(charges, key) == charges.filter(in_scope(key)).len(),
        count_in(charges, key) == 0 ==> bytes_in(charges, key) == 0,
        0 <= count_in(charges, key) <= charges.len(),
    decreases charges.len(),
{
    reveal(Seq::filter);
    if charges.len() > 0 {
        law_scope_counts_its_charges(charges.drop_last(), key);
    }
}

/// One more charge adds one request and its bytes to the scope that it names, and nothing to any
/// other.
pub proof fn law_charge_counts_in_its_scope(
    charges: Seq<ScopeCharge>,
    charge: ScopeCharge,
    key: (Seq<char>, Seq<char>),
)
    ensures
        charge.0 == key ==> count_in(charges.push(charge), key) == count_in(charges, key) + 1
            && bytes_in(charges.push(charge), key) == bytes_in(charges, key) + charge.1,
        charge.0 != key ==> count_in(charges.push(charge), key) == count_in(charges, key)
            && bytes_in(charges.push(charge), key) == bytes_in(charges, key),
        count_in(Seq::empty(), key) == 0,
        bytes_in(Seq::empty(), key) == 0,
{
    assert(charges.push(charge).drop_last() =~= charges);
}

/// A request that comes to wait adds one and its bytes to its own scope, keeps that scope's credit,
/// and leaves every other scope alone.
pub proof fn law_waiting_request_is_recorded(
    scopes: ScopeMap,
    key: (Seq<char>, Seq<char>),
    bytes: u64,
    other: (Seq<char>, Seq<char>),
)
    requires
        usage_of(scopes, key).count < usize::MAX,
        usage_of(scopes, key).bytes + bytes <= u64::MAX,
    ensures
        charged(scopes, key, bytes).dom().contains(key),
        charged(scopes, key, bytes)[key].count - usage_of(scopes, key).count == 1,
        charged(scopes, key, bytes)[key].bytes - usage_of(scopes, key).bytes == bytes,
        charged(scopes, key, bytes)[key].credit() == usage_of(scopes, key).credit(),
        other != key ==> usage_of(charged(scopes, key, bytes), other) == usage_of(scopes, other),
        other != key ==> (charged(scopes, key, bytes).dom().contains(other)
            <==> scopes.dom().contains(other)),
{
}

/// A request that leaves takes one and its bytes from its own scope, keeps that scope's credit while
/// others wait in it, and leaves every other scope alone. A scope is forgotten with its last
/// request.
pub proof fn law_leaving_request_is_recorded(
    scopes: ScopeMap,
    key: (Seq<char>, Seq<char>),
    bytes: u64,
    other: (Seq<char>, Seq<char>),
)
    requires
        usage_of(scopes, key).bytes >= bytes,
    ensures
        usage_of(scopes, key).count > 1 ==> {
            let after = discharged(scopes, key, bytes)[key];
            &&& discharged(scopes, key, bytes).dom().contains(key)
            &&& usage_of(scopes, key).count - after.count == 1
            &&& usage_of(scopes, key).bytes - after.bytes == bytes
            &&& after.credit() == usage_of(scopes, key).credit()
        },
        usage_of(scopes, key).count <= 1 ==> !discharged(scopes, key, bytes).dom().contains(key)
            && usage_of(discharged(scopes, key, bytes), key).count == 0 && usage_of(
            discharged(scopes, key, bytes),
            key,
        ).credit() == 0,
        other != key ==> usage_of(discharged(scopes, key, bytes), other) == usage_of(scopes, other),
        other != key ==> (discharged(scopes, key, bytes).dom().contains(other)
            <==> scopes.dom().contains(other)),
{
}

/// A scope of which nothing is recorded has nobody waiting, no bytes and no credit.
pub proof fn law_unknown_scope_is_empty(scopes: ScopeMap, key: (Seq<char>, Seq<char>))
    requires
        !scopes.dom().contains(key),
    ensures
        usage_of(scopes, key).count == 0,
        usage_of(scopes, key).bytes == 0,
        usage_of(scopes, key).credit() == 0,
{
}

/// One more request fits exactly where there is a place left and its bytes are within what is left.
pub proof fn law_quota_leaves_room(usage: ScopeUsage, bytes: u64, quota: ScopeQuota)
    ensures
        usage.spec_fits(bytes, quota) <==> (usage.count + 1 <= quota.max_count && bytes
            <= quota.max_bytes - usage.bytes),
{
}

/// A round gives every scope its quantum of credit, or what is missing to the maximum, and changes
/// nothing else.
pub proof fn law_round_credits_every_scope(
    scopes: ScopeMap,
    quantum: u64,
    maximum: u64,
    key: (Seq<char>, Seq<char>),
)
    requires
        scopes.dom().contains(key),
        scopes[key].credit() <= maximum,
    ensures
        credited(scopes, quantum, maximum).dom() == scopes.dom(),
        ({
            let after = credited(scopes, quantum, maximum)[key];
            &&& after.count == scopes[key].count
            &&& after.bytes == scopes[key].bytes
            &&& scopes[key].credit() <= after.credit() <= maximum
            &&& scopes[key].credit() + quantum <= maximum ==> after.credit()
                - scopes[key].credit() == quantum
            &&& scopes[key].credit() + quantum > maximum ==> after.credit() == maximum
        }),
{
    assert(credited(scopes, quantum, maximum).dom() =~= scopes.dom());
}

/// Service takes its units from the credit of its own scope and of no other, and no more than there
/// are; what comes back is given to that scope, and no more than the maximum.
pub proof fn law_service_is_paid_by_its_scope(
    scopes: ScopeMap,
    key: (Seq<char>, Seq<char>),
    units: u64,
    maximum: u64,
    other: (Seq<char>, Seq<char>),
)
    ensures
        other != key ==> usage_of(debited(scopes, key, units), other) == usage_of(scopes, other),
        other != key ==> usage_of(refunded(scopes, key, units, maximum), other) == usage_of(
            scopes,
            other,
        ),
        usage_of(debited(scopes, key, units), key).count == usage_of(scopes, key).count,
        usage_of(debited(scopes, key, units), key).bytes == usage_of(scopes, key).bytes,
        usage_of(refunded(scopes, key, units, maximum), key).count == usage_of(scopes, key).count,
        usage_of(refunded(scopes, key, units, maximum), key).bytes == usage_of(scopes, key).bytes,
        usage_of(scopes, key).credit() >= units && usage_of(scopes, key).deficit is Some
            ==> usage_of(scopes, key).credit() - usage_of(debited(scopes, key, units), key).credit()
            == units,
        usage_of(scopes, key).credit() < units ==> usage_of(
            debited(scopes, key, units),
            key,
        ).credit() == 0,
        usage_of(scopes, key).deficit is Some && usage_of(scopes, key).credit() + units <= maximum
            ==> usage_of(refunded(scopes, key, units, maximum), key).credit() - usage_of(
            scopes,
            key,
        ).credit() == units,
        usage_of(scopes, key).deficit is Some && usage_of(scopes, key).credit() + units > maximum
            ==> usage_of(refunded(scopes, key, units, maximum), key).credit() == maximum,
        usage_of(scopes, key).deficit is None ==> debited(scopes, key, units) == scopes && refunded(
            scopes,
            key,
            units,
            maximum,
        ) == scopes,
        credit_after(scopes, key, units, maximum, true) == refunded(scopes, key, units, maximum),
        credit_after(scopes, key, units, maximum, false) == scopes,
{
}

/// A sum that stops at a maximum is the sum, or the maximum, whichever is less.
pub proof fn law_credit_stops_at_the_maximum(credit: u64, units: u64, maximum: u64)
    ensures
        capped(credit, units, maximum) <= maximum,
        capped(credit, units, maximum) <= credit + units,
        capped(credit, units, maximum) == maximum || capped(credit, units, maximum) == credit
            + units,
{
}

/// Slots charge the scope that they name for the bytes that they hold, and together they hold the
/// bytes of each.
pub proof fn law_slots_charge_their_bytes<R>(slots: Seq<QueueSlot<R>>, slot: QueueSlot<R>, kind: int)
    ensures
        slot_charges(slots, kind).len() == slots.len(),
        forall|i: int|
            0 <= i < slots.len() ==> (#[trigger] slot_charges(slots, kind)[i]).1 == slots[i].bytes
                && slot_charges(slots, kind)[i].0 == slots[i].keys@[kind]@,
        slot_bytes(slots.push(slot)) - slot_bytes(slots) == slot.bytes,
        slot_bytes(Seq::<QueueSlot<R>>::empty()) == 0,
{
    assert(slots.push(slot).drop_last() =~= slots);
}

/// A scan begins at the cursor, goes on to the place behind, wraps from the end to the front, and
/// comes to no place twice.
pub proof fn law_scan_goes_round_once(cursor: usize, offset: int, other: int, len: nat)
    requires
        cursor < len,
        0 <= offset < len,
        0 <= other < len,
    ensures
        0 <= rotated(cursor, offset, len) < len,
        rotated(cursor, 0, len) == cursor,
        cursor + offset < len ==> rotated(cursor, offset, len) == cursor + offset,
        cursor + offset >= len ==> rotated(cursor, offset, len) == cursor + offset - len,
        rotated(cursor, offset, len) == rotated(cursor, other, len) ==> offset == other,
{
    let total = len as int;
    assert(forall|at: int| 0 <= at < total ==> #[trigger] (at % total) == at) by {
        assert forall|at: int| 0 <= at < total implies #[trigger] (at % total) == at by {
            vstd::arithmetic::div_mod::lemma_small_mod(at as nat, len);
        }
    }
    assert forall|at: int| total <= at < 2 * total implies #[trigger] (at % total) == at - total by {
        vstd::arithmetic::div_mod::lemma_mod_sub_multiples_vanish(at, total);
        vstd::arithmetic::div_mod::lemma_small_mod((at - total) as nat, len);
    }
}

/// An offer that ends is out no more, and every other offer is out as before.
pub proof fn law_ended_offer_is_out_no_more(
    before: Seq<u64>,
    after: Seq<u64>,
    ticket: u64,
    other: u64,
)
    requires
        offer_ended(before, after, ticket),
    ensures
        after.contains(other) <==> (before.contains(other) && other != ticket),
{
}

/// A request is late exactly where its deadline has come, or comes before it could be served.
pub proof fn law_late_requests_cannot_finish(
    observed_at: Timestamp,
    service_estimate: Duration,
    deadline: Timestamp,
)
    ensures
        !overdue(observed_at, service_estimate, deadline) <==> (observed_at.unix_nanos
            < deadline.unix_nanos && service_estimate.nanos <= deadline.unix_nanos
            - observed_at.unix_nanos),
{
}

/// Waiting is measured from the submission on, and is never negative.
pub proof fn law_waiting_begins_at_submission(submitted_at: Timestamp, observed_at: Timestamp)
    ensures
        waited_nanos(submitted_at, observed_at) >= 0,
        observed_at.unix_nanos >= submitted_at.unix_nanos ==> submitted_at.unix_nanos
            + waited_nanos(submitted_at, observed_at) == observed_at.unix_nanos,
        observed_at.unix_nanos < submitted_at.unix_nanos ==> waited_nanos(submitted_at, observed_at)
            == 0,
{
}

/// Each full interval of waiting makes a request cheaper by the same credit, down to one unit; less
/// than an interval makes no difference.
pub proof fn law_each_interval_makes_cheaper(
    units: u64,
    waited: int,
    interval: u128,
    credit_units: u64,
)
    requires
        interval > 0,
        waited >= 0,
        units > 0,
    ensures
        waited < interval ==> aged_units(units, waited, interval, credit_units) == units,
        aged_units(units, waited, interval, credit_units) >= 1,
        aged_units(units, waited + interval, interval, credit_units) == (if aged_units(
            units,
            waited,
            interval,
            credit_units,
        ) - credit_units >= 1 {
            aged_units(units, waited, interval, credit_units) - credit_units
        } else {
            1
        }),
{
    let span = interval as int;
    let done = waited / span;
    let credit = credit_units as int;
    vstd::arithmetic::div_mod::lemma_div_pos_is_pos(waited, span);
    assert((waited + span) / span == done + 1) by {
        vstd::arithmetic::div_mod::lemma_div_plus_one(waited, span);
    }
    assert((done + 1) * credit == done * credit + credit) by (nonlinear_arith);
    assert(done * credit >= 0) by (nonlinear_arith)
        requires
            done >= 0,
            credit >= 0,
    ;
    if waited < span {
        vstd::arithmetic::div_mod::lemma_basic_div(waited, span);
        assert(0 * credit == 0) by (nonlinear_arith);
    }
}

/// Time has moved back exactly where something was observed later before.
pub proof fn law_time_moves_back_only_before_the_last(last: Timestamp, observed_at: Timestamp)
    ensures
        moved_back(Some(last), observed_at) <==> last.unix_nanos > observed_at.unix_nanos,
        !moved_back(None, observed_at),
{
}

/// Requests share a tenant's scope exactly where their tenants are the same, and a repository's
/// where both their tenants and their repositories are. Actors share whatever their names.
pub proof fn law_scopes_are_of_tenants_and_repositories(
    left: AdmissionIdentity,
    right: AdmissionIdentity,
)
    ensures
        tenant_scope(left) == tenant_scope(right) <==> left.tenant@ == right.tenant@,
        repository_scope(left) == repository_scope(right) <==> (left.tenant@ == right.tenant@
            && left.repository@ == right.repository@),
        left.same_as(right) <==> (repository_scope(left) == repository_scope(right) && left.actor@
            == right.actor@),
{
    if tenant_scope(left) == tenant_scope(right) {
        assert(tenant_scope(left).0 == tenant_scope(right).0);
    }
    if repository_scope(left) == repository_scope(right) {
        assert(repository_scope(left).0 == repository_scope(right).0);
        assert(repository_scope(left).1 == repository_scope(right).1);
    }
}

/// A character is white space exactly where it is one of the twenty-five with that Unicode
/// property.
pub proof fn law_white_space_is_that_of_unicode(c: char)
    ensures
        white_space(c) <==> seq![
            0x09int, 0x0a, 0x0b, 0x0c, 0x0d, 0x20, 0x85, 0xa0, 0x1680, 0x2000, 0x2001, 0x2002,
            0x2003, 0x2004, 0x2005, 0x2006, 0x2007, 0x2008, 0x2009, 0x200a, 0x2028, 0x2029, 0x202f,
            0x205f, 0x3000,
        ].contains(c as int),
{
    let all = seq![
        0x09int, 0x0a, 0x0b, 0x0c, 0x0d, 0x20, 0x85, 0xa0, 0x1680, 0x2000, 0x2001, 0x2002, 0x2003,
        0x2004, 0x2005, 0x2006, 0x2007, 0x2008, 0x2009, 0x200a, 0x2028, 0x2029, 0x202f, 0x205f,
        0x3000,
    ];
    let code = c as int;
    if white_space(c) {
        let at: int = if code <= 0x0d {
            code - 0x09
        } else if code == 0x20 {
            5
        } else if code == 0x85 {
            6
        } else if code == 0xa0 {
            7
        } else if code == 0x1680 {
            8
        } else if code <= 0x200a {
            code - 0x2000 + 9
        } else if code == 0x2028 {
            20
        } else if code == 0x2029 {
            21
        } else if code == 0x202f {
            22
        } else if code == 0x205f {
            23
        } else {
            24
        };
        assert(all[at] == code);
    }
}

/// An actor fits exactly where some character of it is not white space and it takes at most 512
/// bytes.
pub proof fn law_actor_has_a_name(actor: Seq<char>)
    ensures
        actor_fits(actor) <==> ((exists|i: int|
            0 <= i < actor.len() && !white_space(#[trigger] actor[i])) && vstd::utf8::encode_utf8(
            actor,
        ).len() <= 512),
{
}

/// What is left of a trimmed text neither begins nor ends with white space; it is empty exactly where
/// the text is blank.
pub proof fn law_trimmed_text_has_no_white_ends(text: Seq<char>, rest: Seq<char>)
    requires
        trims_to(text, rest),
    ensures
        rest.len() > 0 ==> !white_space(rest.first()) && !white_space(rest.last()),
        rest.len() == 0 <==> blank(text),
        rest.len() <= text.len(),
        text.len() > 0 && !white_space(text.first()) && !white_space(text.last()) ==> rest == text,
{
    let (start, end) = choose|start: int, end: int| #[trigger] trimmed_at(text, rest, start, end);
    if rest.len() == 0 {
        assert(start == end);
        assert forall|i: int| 0 <= i < text.len() implies white_space(#[trigger] text[i]) by {
            if i < start {
                assert(text.take(start)[i] == text[i]);
            } else {
                assert(text.skip(end)[i - end] == text[i]);
            }
        }
    } else {
        assert(rest.first() == text[start]);
        assert(rest.last() == text[end - 1]);
    }
    if text.len() > 0 && !white_space(text.first()) && !white_space(text.last()) {
        if start > 0 {
            assert(text.take(start)[0] == text[0]);
        }
        if end < text.len() {
            assert(text.skip(end)[text.len() - 1 - end] == text.last());
        }
        assert(start == 0 && end == text.len());
        assert(rest =~= text);
    }
}

/// The outcome of a decision says whether it was granted, queued or refused, and why and with what
/// advice it was refused.
pub proof fn law_outcome_tells_the_decision<P>(decision: AdmissionDecision<P>)
    ensures
        outcome_of(decision) is Granted <==> decision is Granted,
        outcome_of(decision) is Queued <==> decision is Queued,
        outcome_of(decision) is Rejected <==> decision is Rejected,
        decision matches AdmissionDecision::Rejected { reason, retry } ==> outcome_of(decision)
            == (AdmissionOutcome::Rejected { reason, retry }),
{
}

/// A controller is asked by one submission of the request. An accepted one is polled once at the
/// observed time, under the ticket that was given for it; and nothing stays behind: where capacity
/// was occupied, the ticket is withdrawn, and nothing is withdrawn otherwise.
pub proof fn law_asking_leaves_nothing_behind(
    before: Seq<AdmissionExchange>,
    after: Seq<AdmissionExchange>,
    request: AdmissionRequest,
    observed_at: Timestamp,
    answer: Result<AdmissionOutcome, AdmissionConfigError>,
)
    requires
        asked(before, after, request, observed_at, answer),
    ensures
        before.len() < after.len() <= before.len() + 4,
        forall|i: int| 0 <= i < before.len() ==> #[trigger] after[i] == before[i],
        after[before.len() as int] is Submitted,
        after[before.len() as int]->request == request,
        answer is Err ==> after.len() == before.len() + 1,
        answer is Ok ==> {
            let submitted = before.len() as int;
            let ticket = after[submitted]->answer->Ok_0;
            &&& after[submitted]->answer is Ok
            &&& after[submitted + 1] == (AdmissionExchange::Polled {
                ticket,
                observed_at,
                outcome: answer->Ok_0,
            })
            &&& after.len() > before.len() + 2 <==> answer->Ok_0 is Queued
            &&& forall|i: int|
                submitted + 2 <= i < after.len() ==> (#[trigger] after[i]) is Withdrawn
                    && after[i]->Withdrawn_ticket == ticket
        },
{
    if answer is Ok {
        let outcome = answer->Ok_0;
        let ticket = choose|ticket: AdmissionTicket| #[trigger]
            settled(before, after, request, observed_at, ticket, outcome);
        assert(settled(before, after, request, observed_at, ticket, outcome));
    }
}

/// A counting budget gives exactly what it has: a charge is granted where enough is left, and what
/// was granted and what is left make up what there was.
pub proof fn law_budget_gives_what_it_has(
    before: nat,
    after: Option<nat>,
    units: u64,
    charged: bool,
    total: int,
)
    ensures
        spends(Some(before), after, units, charged) ==> (charged <==> before >= units),
        spends(Some(before), after, units, charged) && charged ==> after is Some && after->0 + units
            == before,
        spends(Some(before), after, units, charged) && !charged ==> after == Some(before),
        spent_within(Some(before), after, total) <==> (after is Some && 0 <= before - after->0
            <= total),
        short_of(Some(before), total) <==> before < total,
        work_kept(Some(before), after, true, total) ==> before < total && after is Some,
        work_kept(Some(before), after, false, total) <==> spent_within(Some(before), after, total),
{
}

/// Work of two runs adds up: what the first leaves is what the second has.
pub proof fn law_budgets_of_two_runs_add_up(
    before: Option<nat>,
    between: Option<nat>,
    after: Option<nat>,
    first: int,
    second: int,
)
    requires
        spent_within(before, between, first),
        spent_within(between, after, second),
    ensures
        spent_within(before, after, first + second),
{
}

/// Time is counted in nanoseconds from the start of the year -9999 to the end of the year 9999, and
/// spans up to the largest 64-bit number of seconds and a nanosecond short of one more.
pub proof fn law_time_has_its_range(at: Timestamp)
    ensures
        at.in_range() <==> -377_705_116_800 * 1_000_000_000 <= at.unix_nanos < 253_402_300_800
            * 1_000_000_000,
        MIN_UNIX_NANOS < 0 < MAX_UNIX_NANOS,
        MAX_DURATION_NANOS == u64::MAX * 1_000_000_000 + 999_999_999,
{
}

} // verus!
