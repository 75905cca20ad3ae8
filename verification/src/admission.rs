//! Weighted admission as the schedulers see it: what they submit, and what may come back.

use crate::clock::{Duration, Timestamp};
use crate::object::{RepositoryId, TenantId};
use vstd::prelude::*;

verus! {

/// Tenant, repository and authenticated actor of a request.
#[derive(Debug)]
pub struct AdmissionIdentity {
    /// Tenant.
    pub tenant: TenantId,
    /// Repository.
    pub repository: RepositoryId,
    /// Authenticated actor.
    pub actor: String,
}

impl AdmissionIdentity {
    /// The two identities are the same.
    pub open spec fn same_as(self, other: AdmissionIdentity) -> bool {
        &&& self.tenant@ == other.tenant@
        &&& self.repository@ == other.repository@
        &&& self.actor@ == other.actor@
    }
}

impl Clone for AdmissionIdentity {
    fn clone(&self) -> (copy: Self)
        ensures
            copy.same_as(*self),
    {
        AdmissionIdentity {
            tenant: self.tenant.clone(),
            repository: self.repository.clone(),
            actor: self.actor.clone(),
        }
    }
}

/// The character has the Unicode property White_Space.
pub open spec fn white_space(c: char) -> bool {
    let code = c as int;
    ||| 0x09 <= code <= 0x0d
    ||| code == 0x20
    ||| code == 0x85
    ||| code == 0xa0
    ||| code == 0x1680
    ||| 0x2000 <= code <= 0x200a
    ||| code == 0x2028
    ||| code == 0x2029
    ||| code == 0x202f
    ||| code == 0x205f
    ||| code == 0x3000
}

/// The text holds nothing but white space.
pub open spec fn blank(text: Seq<char>) -> bool {
    forall|i: int| 0 <= i < text.len() ==> white_space(#[trigger] text[i])
}

/// The text from `start` to `end` is what is left without leading and trailing white space.
pub open spec fn trimmed_at(text: Seq<char>, rest: Seq<char>, start: int, end: int) -> bool {
    &&& 0 <= start <= end <= text.len()
    &&& rest == text.subrange(start, end)
    &&& blank(text.take(start))
    &&& blank(text.skip(end))
    &&& start < end ==> !white_space(text[start]) && !white_space(text[end - 1])
}

/// The text without leading and trailing white space.
pub open spec fn trims_to(text: Seq<char>, rest: Seq<char>) -> bool {
    exists|start: int, end: int| #[trigger] trimmed_at(text, rest, start, end)
}

/// Calls `str::trim`: the result is the text without the characters of the Unicode property
/// White_Space at its two ends, and empty where there are no others.
#[verifier::external_body]
pub(crate) fn trim_text<'a>(text: &'a str) -> (rest: &'a str)
    ensures
        trims_to(text@, rest@),
{
    text.trim()
}

/// Nothing is left of a blank text, and something of any other.
pub(crate) proof fn lemma_trimmed(text: Seq<char>, rest: Seq<char>)
    requires
        trims_to(text, rest),
    ensures
        rest.len() == 0 <==> blank(text),
{
    let (start, end) = choose|start: int, end: int| #[trigger] trimmed_at(text, rest, start, end);
    if rest.len() == 0 {
        assert forall|i: int| 0 <= i < text.len() implies white_space(#[trigger] text[i]) by {
            if i < start {
                assert(text.take(start)[i] == text[i]);
            } else {
                assert(text.skip(end)[i - end] == text[i]);
            }
        }
    }
}

/// The actor is not blank and takes at most 512 bytes.
pub open spec fn actor_fits(actor: Seq<char>) -> bool {
    !blank(actor) && vstd::utf8::encode_utf8(actor).len() <= 512
}

/// Return whether an actor is not blank and takes at most 512 bytes.
pub fn check_actor(actor: &String) -> (fits: bool)
    ensures
        fits == actor_fits(actor@),
{
    let text: &str = actor.as_str();
    let bytes: usize = text.as_bytes().len();
    let rest: &str = trim_text(text);
    proof {
        lemma_trimmed(text@, rest@);
    }
    !rest.is_empty() && bytes <= 512
}

/// Bytes that a text takes.
pub fn text_bytes(text: &String) -> (bytes: usize)
    ensures
        bytes == vstd::utf8::encode_utf8(text@).len(),
{
    text.as_str().as_bytes().len()
}

/// Class of admitted work.
#[derive(Clone, Copy, Debug, PartialEq, Eq, Structural)]
pub enum ResourceClass {
    /// Clone or fetch.
    Clone,
    /// Push.
    Push,
}

/// Backend capacity that one request takes.
#[derive(Clone, Copy, Debug, PartialEq, Eq, Structural)]
pub struct ResourceWeights {
    /// Request slots.
    pub slots: u64,
    /// Memory bytes.
    pub memory_bytes: u64,
    /// Input and output bytes.
    pub io_bytes: u64,
    /// Processor units.
    pub cpu_units: u64,
    /// Database units.
    pub sql_units: u64,
    /// Object-store units.
    pub s3_units: u64,
}

/// Submission to the controller.
#[derive(Debug)]
pub struct AdmissionRequest {
    /// Class of work.
    pub class: ResourceClass,
    /// Who asks.
    pub identity: AdmissionIdentity,
    /// Capacity that the request takes.
    pub weights: ResourceWeights,
    /// Submission time.
    pub submitted_at: Timestamp,
    /// Deadline.
    pub deadline: Timestamp,
    /// Estimated service time.
    pub service_estimate: Duration,
}

/// Controller-local ticket.
#[derive(Clone, Copy, Debug, PartialEq, Eq, Structural)]
pub struct AdmissionTicket {
    /// Sequence value.
    pub value: u64,
}

/// The controller refused its configuration or a submission.
#[derive(Clone, Copy, Debug, PartialEq, Eq, Structural)]
pub struct AdmissionConfigError;

/// Why the controller removed a request.
#[derive(Clone, Copy, Debug, PartialEq, Eq, Structural)]
pub enum AdmissionRejectReason {
    /// The request cannot finish before its deadline.
    Deadline,
    /// The backend is overloaded.
    BackendOverloaded,
    /// Memory is short.
    AllocationPressure,
    /// The ticket is not known.
    UnknownTicket,
}

/// When to try again.
#[derive(Clone, Copy, Debug, PartialEq, Eq, Structural)]
pub enum RetryGuidance {
    /// Trying again is of no use.
    DoNotRetry,
    /// Try again after a while.
    RetryAfter {
        /// How long to wait.
        delay: Duration,
    },
}

/// What the controller decided about a ticket.
#[derive(Debug)]
pub enum AdmissionDecision<P> {
    /// Capacity is reserved until the permit is dropped.
    Granted(P),
    /// Capacity is occupied.
    Queued,
    /// The request was removed.
    Rejected {
        /// Why.
        reason: AdmissionRejectReason,
        /// When to try again.
        retry: RetryGuidance,
    },
}

/// What the controller decided, without the permit.
pub enum AdmissionOutcome {
    /// Capacity was reserved.
    Granted,
    /// Capacity was occupied.
    Queued,
    /// The request was removed.
    Rejected {
        /// Why.
        reason: AdmissionRejectReason,
        /// When to try again.
        retry: RetryGuidance,
    },
}

/// The outcome of a decision.
pub open spec fn outcome_of<P>(decision: AdmissionDecision<P>) -> AdmissionOutcome {
    match decision {
        AdmissionDecision::Granted(_) => AdmissionOutcome::Granted,
        AdmissionDecision::Queued => AdmissionOutcome::Queued,
        AdmissionDecision::Rejected { reason, retry } => AdmissionOutcome::Rejected {
            reason,
            retry,
        },
    }
}

/// One exchange with the controller.
pub enum AdmissionExchange {
    /// A request was submitted.
    Submitted {
        /// The request.
        request: AdmissionRequest,
        /// The answer.
        answer: Result<AdmissionTicket, AdmissionConfigError>,
    },
    /// A ticket was polled.
    Polled {
        /// The ticket.
        ticket: AdmissionTicket,
        /// The time given.
        observed_at: Timestamp,
        /// The decision.
        outcome: AdmissionOutcome,
    },
    /// A ticket was withdrawn.
    Withdrawn {
        /// The ticket.
        ticket: AdmissionTicket,
        /// Whether it was known.
        known: bool,
    },
}

/// A request was submitted and its ticket polled, with this outcome; where capacity was occupied, it
/// was withdrawn again, and once more if the controller did not know it.
pub open spec fn settled(
    before: Seq<AdmissionExchange>,
    after: Seq<AdmissionExchange>,
    request: AdmissionRequest,
    observed_at: Timestamp,
    ticket: AdmissionTicket,
    outcome: AdmissionOutcome,
) -> bool {
    let submitted = before.push(AdmissionExchange::Submitted { request, answer: Ok(ticket) });
    let polled = submitted.push(AdmissionExchange::Polled { ticket, observed_at, outcome });
    let unknown = polled.push(AdmissionExchange::Withdrawn { ticket, known: false });
    if outcome is Queued {
        ||| after == polled.push(AdmissionExchange::Withdrawn { ticket, known: true })
        ||| after == unknown.push(AdmissionExchange::Withdrawn { ticket, known: true })
        ||| after == unknown.push(AdmissionExchange::Withdrawn { ticket, known: false })
    } else {
        after == polled
    }
}

/// The controller was asked about one request and nothing else, and answered so.
pub open spec fn asked(
    before: Seq<AdmissionExchange>,
    after: Seq<AdmissionExchange>,
    request: AdmissionRequest,
    observed_at: Timestamp,
    answer: Result<AdmissionOutcome, AdmissionConfigError>,
) -> bool {
    match answer {
        Err(error) => after == before.push(
            AdmissionExchange::Submitted { request, answer: Err(error) },
        ),
        Ok(outcome) => exists|ticket: AdmissionTicket| #[trigger]
            settled(before, after, request, observed_at, ticket, outcome),
    }
}

/// Weighted admission controller.
pub trait AdmissionController {
    /// Reserved capacity, given back when dropped.
    type Permit;

    /// Observed backend pressure.
    type Pressure;

    /// What was asked and answered so far.
    closed spec fn exchanges(&self) -> Seq<AdmissionExchange> {
        Seq::empty()
    }

    /// An observed pressure may be answered so.
    closed spec fn pressure_answers(
        pressure: Self::Pressure,
        answer: Result<(), AdmissionConfigError>,
    ) -> bool {
        true
    }

    /// Check an observed pressure.
    fn validate_pressure(&self, pressure: &Self::Pressure) -> (answer: Result<
        (),
        AdmissionConfigError,
    >)
        ensures
            Self::pressure_answers(*pressure, answer),
    ;

    /// Submit a request.
    fn submit(&mut self, request: AdmissionRequest) -> (answer: Result<
        AdmissionTicket,
        AdmissionConfigError,
    >)
        ensures
            final(self).exchanges() == old(self).exchanges().push(
                AdmissionExchange::Submitted { request, answer },
            ),
    ;

    /// Ask for a decision.
    fn poll(
        &mut self,
        ticket: AdmissionTicket,
        observed_at: Timestamp,
        pressure: &Self::Pressure,
    ) -> (decision: AdmissionDecision<Self::Permit>)
        ensures
            final(self).exchanges() == old(self).exchanges().push(
                AdmissionExchange::Polled { ticket, observed_at, outcome: outcome_of(decision) },
            ),
    ;

    /// Withdraw a request, and return whether it was known.
    fn cancel(&mut self, ticket: AdmissionTicket) -> (known: bool)
        ensures
            final(self).exchanges() == old(self).exchanges().push(
                AdmissionExchange::Withdrawn { ticket, known },
            ),
    ;
}

/// Controller without capacity limits: every request that it knows is granted.
pub struct OpenAdmission {
    issued: u64,
    exchanges: Ghost<Seq<AdmissionExchange>>,
}

impl OpenAdmission {
    /// Tickets issued so far.
    pub closed spec fn spec_issued(self) -> u64 {
        self.issued
    }

    /// Start without a ticket.
    pub fn new() -> (controller: Self)
        ensures
            controller.spec_issued() == 0,
            controller.exchanges() == Seq::<AdmissionExchange>::empty(),
    {
        OpenAdmission { issued: 0, exchanges: Ghost(Seq::empty()) }
    }
}

impl AdmissionController for OpenAdmission {
    type Permit = ();

    type Pressure = ();

    closed spec fn exchanges(&self) -> Seq<AdmissionExchange> {
        self.exchanges@
    }

    open spec fn pressure_answers(pressure: (), answer: Result<(), AdmissionConfigError>) -> bool {
        answer is Ok
    }

    fn validate_pressure(&self, pressure: &()) -> (answer: Result<(), AdmissionConfigError>) {
        Ok(())
    }

    fn submit(&mut self, request: AdmissionRequest) -> (answer: Result<
        AdmissionTicket,
        AdmissionConfigError,
    >)
        ensures
            answer == if old(self).spec_issued() < u64::MAX {
                Ok::<AdmissionTicket, AdmissionConfigError>(
                    AdmissionTicket { value: old(self).spec_issued() },
                )
            } else {
                Err(AdmissionConfigError)
            },
            answer is Ok ==> final(self).spec_issued() == old(self).spec_issued() + 1,
    {
        let answer = if self.issued == u64::MAX {
            Err(AdmissionConfigError)
        } else {
            let ticket = AdmissionTicket { value: self.issued };
            self.issued = self.issued + 1;
            Ok(ticket)
        };
        self.exchanges =
        Ghost(self.exchanges@.push(AdmissionExchange::Submitted { request, answer }));
        answer
    }

    fn poll(&mut self, ticket: AdmissionTicket, observed_at: Timestamp, pressure: &()) -> (decision:
        AdmissionDecision<()>)
        ensures
            outcome_of(decision) == if ticket.value < old(self).spec_issued() {
                AdmissionOutcome::Granted
            } else {
                AdmissionOutcome::Rejected {
                    reason: AdmissionRejectReason::UnknownTicket,
                    retry: RetryGuidance::DoNotRetry,
                }
            },
            final(self).spec_issued() == old(self).spec_issued(),
    {
        let decision = if ticket.value < self.issued {
            AdmissionDecision::Granted(())
        } else {
            AdmissionDecision::Rejected {
                reason: AdmissionRejectReason::UnknownTicket,
                retry: RetryGuidance::DoNotRetry,
            }
        };
        self.exchanges =
        Ghost(
            self.exchanges@.push(
                AdmissionExchange::Polled { ticket, observed_at, outcome: outcome_of(decision) },
            ),
        );
        decision
    }

    fn cancel(&mut self, ticket: AdmissionTicket) -> (known: bool)
        ensures
            known == (ticket.value < old(self).spec_issued()),
            final(self).spec_issued() == old(self).spec_issued(),
    {
        let known: bool = ticket.value < self.issued;
        self.exchanges =
        Ghost(self.exchanges@.push(AdmissionExchange::Withdrawn { ticket, known }));
        known
    }
}

/// Nanoseconds waited since submission.
pub open spec fn waited_nanos(submitted_at: Timestamp, observed_at: Timestamp) -> int {
    if observed_at.unix_nanos > submitted_at.unix_nanos {
        observed_at.unix_nanos - submitted_at.unix_nanos
    } else {
        0
    }
}

/// Service units after aging: each full interval waited takes units off, but at least one is left.
pub open spec fn aged_units(units: u64, waited: int, interval: u128, credit_units: u64) -> u64 {
    let left = units - (waited / interval as int) * credit_units;
    if left >= 1 {
        left as u64
    } else {
        1
    }
}

/// Longer waiting never raises the cost.
pub proof fn law_aging_never_raises_cost(
    units: u64,
    shorter: int,
    longer: int,
    interval: u128,
    credit_units: u64,
)
    requires
        0 <= shorter <= longer,
        interval > 0,
        units > 0,
    ensures
        1 <= aged_units(units, longer, interval, credit_units) <= aged_units(
            units,
            shorter,
            interval,
            credit_units,
        ) <= units,
{
    let i = interval as int;
    let c = credit_units as int;
    vstd::arithmetic::div_mod::lemma_div_is_ordered(shorter, longer, i);
    vstd::arithmetic::div_mod::lemma_div_pos_is_pos(shorter, i);
    vstd::arithmetic::mul::lemma_mul_inequality(shorter / i, longer / i, c);
    vstd::arithmetic::mul::lemma_mul_nonnegative(shorter / i, c);
}

/// Compute the service units after aging.
pub fn aged_cost(
    units: u64,
    submitted_at: Timestamp,
    observed_at: Timestamp,
    aging_interval: Duration,
    credit_units: u64,
) -> (cost: u64)
    requires
        submitted_at.in_range(),
        observed_at.in_range(),
        aging_interval.nanos > 0,
        units > 0,
    ensures
        cost == aged_units(
            units,
            waited_nanos(submitted_at, observed_at),
            aging_interval.nanos,
            credit_units,
        ),
        1 <= cost <= units,
{
    let waited: u128 = if observed_at.unix_nanos > submitted_at.unix_nanos {
        (observed_at.unix_nanos - submitted_at.unix_nanos) as u128
    } else {
        0
    };
    let intervals: u128 = waited / aging_interval.nanos;
    proof {
        law_aging_never_raises_cost(
            units,
            waited as int,
            waited as int,
            aging_interval.nanos,
            credit_units,
        );
        vstd::arithmetic::div_mod::lemma_div_pos_is_pos(
            waited as int,
            aging_interval.nanos as int,
        );
    }
    let capped: u64 = if intervals > u64::MAX as u128 {
        u64::MAX
    } else {
        intervals as u64
    };
    let credit: u64 = match capped.checked_mul(credit_units) {
        Some(credit) => credit,
        None => u64::MAX,
    };
    proof {
        let full = intervals * credit_units;
        if credit_units == 0 {
            assert(full == 0) by (nonlinear_arith)
                requires
                    credit_units == 0,
                    full == intervals * credit_units,
            ;
            assert(capped * credit_units == 0) by (nonlinear_arith)
                requires
                    credit_units == 0,
            ;
        } else if intervals > u64::MAX {
            assert(full >= u64::MAX) by (nonlinear_arith)
                requires
                    credit_units >= 1,
                    intervals > u64::MAX,
                    full == intervals * credit_units,
            ;
            assert(capped * credit_units >= u64::MAX) by (nonlinear_arith)
                requires
                    credit_units >= 1,
                    capped == u64::MAX,
            ;
        }
    }
    let left: u64 = units.saturating_sub(credit);
    if left >= 1 {
        left
    } else {
        1
    }
}

/// The request cannot finish any more.
pub open spec fn overdue(
    observed_at: Timestamp,
    service_estimate: Duration,
    deadline: Timestamp,
) -> bool {
    observed_at.unix_nanos >= deadline.unix_nanos || observed_at.unix_nanos
        + service_estimate.nanos > deadline.unix_nanos
}

/// Return whether a request cannot finish any more.
pub fn is_overdue(
    observed_at: Timestamp,
    service_estimate: Duration,
    deadline: Timestamp,
) -> (late: bool)
    requires
        observed_at.in_range(),
        deadline.in_range(),
    ensures
        late == overdue(observed_at, service_estimate, deadline),
{
    if observed_at.unix_nanos >= deadline.unix_nanos {
        return true;
    }
    match observed_at.checked_add(service_estimate) {
        Some(completion) => completion.unix_nanos > deadline.unix_nanos,
        None => true,
    }
}

/// The scope of a tenant.
pub open spec fn tenant_scope(identity: AdmissionIdentity) -> (Seq<char>, Seq<char>) {
    (identity.tenant@, Seq::empty())
}

/// The scope of a repository.
pub open spec fn repository_scope(identity: AdmissionIdentity) -> (Seq<char>, Seq<char>) {
    (identity.tenant@, identity.repository@)
}

/// Observed time moved backwards.
pub open spec fn moved_back(last: Option<Timestamp>, observed_at: Timestamp) -> bool {
    last is Some && observed_at.unix_nanos < last->0.unix_nanos
}

/// Return whether observed time moved backwards.
pub fn time_moved_back(last: Option<Timestamp>, observed_at: Timestamp) -> (back: bool)
    ensures
        back == moved_back(last, observed_at),
{
    match last {
        Some(previous) => observed_at.unix_nanos < previous.unix_nanos,
        None => false,
    }
}

} // verus!
