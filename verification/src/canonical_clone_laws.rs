//! What holds of the sharing of canonical clone packs.

use crate::canonical_clone::{
    capability_fault, key_fault, request_fault, CanonicalCloneClaimResult, CanonicalCloneError,
    CanonicalCloneFlightState, CanonicalCloneGeneration, CanonicalCloneKey, CanonicalCloneLease,
    CanonicalCloneManifest, CanonicalCloneManifestState, CanonicalCloneMutationResult,
    CanonicalCloneScope, CanonicalCloneShape, CanonicalCloneSingleflight,
    CanonicalCloneVerification, UploadPackCapability, UploadPackRequest, MAX_CANONICAL_CLONE_WANTS,
};
use crate::canonical_clone_serve::{
    chunk_count, flight_lookup, lookup_of, manifest_matches, next_length, serving_chunk, wire_bytes,
    CanonicalCloneLookup, CanonicalCloneLookupError, CanonicalCloneServeOptions, UploadPackWire,
};
use crate::clock::Timestamp;
use crate::digest::{digest_of, hashed_id};
use crate::object::{HashAlgo, ObjectId};
use vstd::prelude::*;

verus! {

/// A claim with a newer fence, a lease that lasts and an observation in order is granted whenever no
/// live builder holds the flight and nothing is published or invalidated: where nothing was built
/// yet, after a failed build, and once a lease has expired.
pub proof fn law_unheld_flight_is_claimed(
    flight: CanonicalCloneSingleflight,
    fencing: u64,
    observed_at: Timestamp,
    expires_at: Timestamp,
)
    requires
        fencing > 0,
        observed_at.unix_nanos < expires_at.unix_nanos,
        flight.spec_observed() matches Some(last) ==> last.unix_nanos <= observed_at.unix_nanos,
        match flight.spec_state() {
            CanonicalCloneFlightState::Idle { last_fencing } => last_fencing < fencing,
            CanonicalCloneFlightState::Failed { last_fencing, .. } => last_fencing < fencing,
            CanonicalCloneFlightState::Building(lease) => lease.fencing < fencing
                && lease.expires_at.unix_nanos <= observed_at.unix_nanos,
            CanonicalCloneFlightState::Published(_) => false,
            CanonicalCloneFlightState::Invalidated { .. } => false,
        },
    ensures
        flight.claim_outcome(fencing, observed_at, expires_at) == Ok::<
            CanonicalCloneClaimResult,
            CanonicalCloneError,
        >(CanonicalCloneClaimResult::Claimed),
{
}

/// What a claim that is not granted is told, and when: that its lease is no lease, that time ran
/// backwards, that a live builder is at work, that the pack is there, that the generation is gone,
/// that its fence is old, or that fences have run out.
pub proof fn law_refused_claims_are_told_why(
    flight: CanonicalCloneSingleflight,
    fencing: u64,
    observed_at: Timestamp,
    expires_at: Timestamp,
)
    ensures
        ({
            let outcome = flight.claim_outcome(fencing, observed_at, expires_at);
            let back = flight.spec_observed() matches Some(last) && observed_at.unix_nanos
                < last.unix_nanos;
            let lasting = fencing != 0 && observed_at.unix_nanos < expires_at.unix_nanos;
            &&& (outcome matches Err(CanonicalCloneError::InvalidLease)) <==> !lasting
            &&& (outcome matches Err(CanonicalCloneError::NonMonotonicTime)) <==> lasting && back
            &&& (outcome matches Ok(CanonicalCloneClaimResult::Busy)) <==> lasting && !back && (
            flight.spec_state() matches CanonicalCloneFlightState::Building(lease)
                && observed_at.unix_nanos < lease.expires_at.unix_nanos)
            &&& (outcome matches Ok(CanonicalCloneClaimResult::Published)) <==> lasting && !back
                && flight.spec_state() is Published
            &&& (outcome matches Ok(CanonicalCloneClaimResult::Ineligible)) <==> lasting && !back
                && flight.spec_state() is Invalidated
            &&& outcome matches Ok(CanonicalCloneClaimResult::Stale) ==> match flight.spec_state() {
                CanonicalCloneFlightState::Idle { last_fencing } => fencing <= last_fencing,
                CanonicalCloneFlightState::Failed { last_fencing, .. } => fencing <= last_fencing,
                CanonicalCloneFlightState::Building(lease) => fencing <= lease.fencing,
                _ => false,
            }
            &&& outcome matches Err(CanonicalCloneError::FencingOverflow)
                ==> match flight.spec_state() {
                CanonicalCloneFlightState::Idle { last_fencing } => last_fencing == u64::MAX,
                CanonicalCloneFlightState::Failed { last_fencing, .. } => last_fencing
                    == u64::MAX,
                CanonicalCloneFlightState::Building(lease) => lease.fencing == u64::MAX,
                _ => false,
            }
        }),
{
}

/// Until its lease expires a builder may renew it for longer, publish, and report a failure; what it
/// publishes needs only to be a valid manifest of this key and generation, ready and not newer than
/// the observation.
pub proof fn law_live_builder_is_heeded(
    flight: CanonicalCloneSingleflight,
    lease: CanonicalCloneLease,
    observed_at: Timestamp,
    expires_at: Timestamp,
    manifest: CanonicalCloneManifest,
)
    requires
        flight.spec_state() == CanonicalCloneFlightState::Building(lease),
        flight.spec_observed() matches Some(last) ==> last.unix_nanos <= observed_at.unix_nanos,
        lease.last_observed_at.unix_nanos <= observed_at.unix_nanos,
        observed_at.unix_nanos < lease.expires_at.unix_nanos,
    ensures
        lease.expires_at.unix_nanos < expires_at.unix_nanos ==> flight.renew_outcome(
            lease.token@,
            lease.fencing,
            observed_at,
            expires_at,
        ) == Ok::<CanonicalCloneMutationResult, CanonicalCloneError>(
            CanonicalCloneMutationResult::Applied,
        ),
        observed_at.unix_nanos < expires_at.unix_nanos && expires_at.unix_nanos
            <= lease.expires_at.unix_nanos ==> flight.renew_outcome(
            lease.token@,
            lease.fencing,
            observed_at,
            expires_at,
        ) == Ok::<CanonicalCloneMutationResult, CanonicalCloneError>(
            CanonicalCloneMutationResult::Stale,
        ),
        manifest.fault() is None && manifest.key == flight.spec_key() && manifest.generation
            == flight.spec_generation() && manifest.created_at.unix_nanos <= observed_at.unix_nanos
            && manifest.verification == CanonicalCloneVerification::Verified && manifest.state
            == CanonicalCloneManifestState::Ready && manifest.retire_after is None
            ==> flight.publish_outcome(lease.token@, lease.fencing, observed_at, manifest) == Ok::<
            CanonicalCloneMutationResult,
            CanonicalCloneError,
        >(CanonicalCloneMutationResult::Applied),
        flight.fail_outcome(lease.token@, lease.fencing, observed_at) == Ok::<
            CanonicalCloneMutationResult,
            CanonicalCloneError,
        >(CanonicalCloneMutationResult::Applied),
{
}

/// Only a valid manifest of this very key and generation, not newer than the observation and ready
/// to be served, is ever published, and only by the builder whose lease lives.
pub proof fn law_publication_is_the_builders(
    flight: CanonicalCloneSingleflight,
    token: Seq<char>,
    fencing: u64,
    observed_at: Timestamp,
    manifest: CanonicalCloneManifest,
)
    requires
        flight.publish_outcome(token, fencing, observed_at, manifest) == Ok::<
            CanonicalCloneMutationResult,
            CanonicalCloneError,
        >(CanonicalCloneMutationResult::Applied),
    ensures
        flight.spec_state() matches CanonicalCloneFlightState::Building(lease) && lease.token@
            == token && lease.fencing == fencing && observed_at.unix_nanos
            < lease.expires_at.unix_nanos,
        manifest.created_at.unix_nanos <= observed_at.unix_nanos,
        manifest.verification == CanonicalCloneVerification::Verified,
        manifest.state == CanonicalCloneManifestState::Ready,
        manifest.retire_after is None,
        manifest.shape.generation == flight.spec_generation(),
        manifest.key == flight.spec_key(),
        flight.spec_observed() matches Some(last) ==> last.unix_nanos <= observed_at.unix_nanos,
{
}

/// Reporting the same failure again changes nothing and is no error; another builder's report is
/// stale.
pub proof fn law_failure_is_reported_once(
    flight: CanonicalCloneSingleflight,
    token: Seq<char>,
    fencing: u64,
    observed_at: Timestamp,
)
    requires
        flight.spec_state() is Failed,
        flight.spec_observed() matches Some(last) ==> last.unix_nanos <= observed_at.unix_nanos,
    ensures
        flight.fail_outcome(token, fencing, observed_at) == Ok::<
            CanonicalCloneMutationResult,
            CanonicalCloneError,
        >(
            if flight.spec_state()->Failed_last_fencing == fencing
                && flight.spec_state()->Failed_token@ == token {
                CanonicalCloneMutationResult::Applied
            } else {
                CanonicalCloneMutationResult::Stale
            },
        ),
{
}

/// A generation is invalidated in whatever state it is, by its own number alone; another number is
/// stale and touches nothing.
pub proof fn law_own_generation_is_invalidated(
    flight: CanonicalCloneSingleflight,
    generation: CanonicalCloneGeneration,
    invalidated_at: Timestamp,
    retire_after: Timestamp,
)
    requires
        flight.spec_observed() matches Some(last) ==> last.unix_nanos <= invalidated_at.unix_nanos,
        invalidated_at.unix_nanos < retire_after.unix_nanos,
    ensures
        flight.spec_generation() != generation ==> flight.invalidate_outcome(
            generation,
            invalidated_at,
            retire_after,
        ) == Ok::<CanonicalCloneMutationResult, CanonicalCloneError>(
            CanonicalCloneMutationResult::Stale,
        ),
        flight.spec_generation() == generation && !(flight.spec_state() is Published)
            ==> flight.invalidate_outcome(generation, invalidated_at, retire_after) == Ok::<
            CanonicalCloneMutationResult,
            CanonicalCloneError,
        >(CanonicalCloneMutationResult::Applied),
        flight.spec_generation() == generation && (flight.spec_state() matches
            CanonicalCloneFlightState::Published(manifest) && manifest.fault() is None
            && manifest.created_at.unix_nanos < retire_after.unix_nanos)
            ==> flight.invalidate_outcome(generation, invalidated_at, retire_after) == Ok::<
            CanonicalCloneMutationResult,
            CanonicalCloneError,
        >(CanonicalCloneMutationResult::Applied),
{
}

/// Retiring a manifest changes its state and its time, and nothing of what it describes; it can be
/// served no more.
pub proof fn law_retired_manifest_is_the_same_pack(
    manifest: CanonicalCloneManifest,
    retire_after: Timestamp,
)
    ensures
        ({
            let after = manifest.retired(retire_after);
            &&& after.state == CanonicalCloneManifestState::Retired
            &&& after.retire_after == Some(retire_after)
            &&& after.key == manifest.key
            &&& after.shape == manifest.shape
            &&& after.generation == manifest.generation
            &&& after.pack_checksum == manifest.pack_checksum
            &&& after.hash_algo == manifest.hash_algo
            &&& after.object_count == manifest.object_count
            &&& after.size_bytes == manifest.size_bytes
            &&& after.created_at == manifest.created_at
            &&& after.locator == manifest.locator
            &&& !after.eligible()
        }),
{
}

/// A manifest is in order exactly where it names the pack of its own shape, is large enough for its
/// wants and its frame, and says when it retires if and only if it is retired.
pub proof fn law_manifest_in_order(manifest: CanonicalCloneManifest)
    ensures
        manifest.fault() is None <==> {
            &&& manifest.generation.incarnation != 0
            &&& key_fault(manifest.shape) is None
            &&& manifest.key.spec_digest() == hashed_id(
                HashAlgo::Sha256,
                crate::canonical_clone::shape_encoding(manifest.shape),
            )
            &&& manifest.shape.generation == manifest.generation
            &&& manifest.shape.hash_algo == manifest.hash_algo
            &&& manifest.pack_checksum.spec_algo() == manifest.hash_algo
            &&& !manifest.pack_checksum.spec_is_zero()
            &&& manifest.object_count >= 1
            &&& manifest.object_count >= manifest.shape.wants@.len()
            &&& manifest.size_bytes >= 12 + match manifest.hash_algo {
                HashAlgo::Sha1 => 20int,
                HashAlgo::Sha256 => 32,
            }
            &&& manifest.state == CanonicalCloneManifestState::Ready ==> manifest.verification
                == CanonicalCloneVerification::Verified
            &&& manifest.state == CanonicalCloneManifestState::Retired
                <==> manifest.retire_after is Some
            &&& manifest.retire_after matches Some(time) ==> manifest.created_at.unix_nanos
                < time.unix_nanos
        },
{
}

/// A complete clone of known identities has a canonical shape: whatever capabilities it names, but
/// for unknown ones and for an object format that is named twice or is another one.
pub proof fn law_plain_clone_has_a_shape(
    request: UploadPackRequest,
    generation: CanonicalCloneGeneration,
    algo: HashAlgo,
)
    requires
        generation.incarnation != 0,
        request.haves@.len() == 0,
        1 <= request.wants@.len() <= MAX_CANONICAL_CLONE_WANTS,
        forall|i: int|
            0 <= i < request.wants@.len() ==> !(#[trigger] request.wants@[i]).spec_is_zero()
                && request.wants@[i].spec_algo() == algo,
        forall|i: int|
            0 <= i < request.capabilities@.len() ==> !((#[trigger] request.capabilities@[i])
                is Other) && (request.capabilities@[i] matches UploadPackCapability::ObjectFormat(
                format,
            ) ==> format == algo),
        forall|i: int, j: int|
            #![trigger request.capabilities@[i], request.capabilities@[j]]
            0 <= i < j < request.capabilities@.len() ==> !(request.capabilities@[i] is ObjectFormat
                && request.capabilities@[j] is ObjectFormat),
    ensures
        request_fault(request, generation, algo) is None,
{
    lemma_capabilities_pass(request.capabilities@, 0, false, algo);
}

proof fn lemma_capabilities_pass(
    capabilities: Seq<UploadPackCapability>,
    at: int,
    seen: bool,
    algo: HashAlgo,
)
    requires
        0 <= at <= capabilities.len(),
        forall|i: int|
            0 <= i < capabilities.len() ==> !((#[trigger] capabilities[i]) is Other) && (
            capabilities[i] matches UploadPackCapability::ObjectFormat(format) ==> format == algo),
        forall|i: int, j: int|
            #![trigger capabilities[i], capabilities[j]]
            0 <= i < j < capabilities.len() ==> !(capabilities[i] is ObjectFormat
                && capabilities[j] is ObjectFormat),
        seen ==> exists|i: int| 0 <= i < at && (#[trigger] capabilities[i]) is ObjectFormat,
    ensures
        capability_fault(capabilities, at, seen, algo) is None,
    decreases capabilities.len() - at,
{
    if at < capabilities.len() {
        let now = capabilities[at] is ObjectFormat;
        if seen {
            let i = choose|i: int| 0 <= i < at && (#[trigger] capabilities[i]) is ObjectFormat;
            assert(!(capabilities[i] is ObjectFormat && capabilities[at] is ObjectFormat));
        }
        lemma_capabilities_pass(capabilities, at + 1, seen || now, algo);
    }
}

/// A request without fault has wants and no haves, and names no unknown capability and no other
/// object format.
pub proof fn law_shaped_request_is_a_plain_clone(
    request: UploadPackRequest,
    generation: CanonicalCloneGeneration,
    algo: HashAlgo,
)
    requires
        request_fault(request, generation, algo) is None,
    ensures
        generation.incarnation != 0,
        request.haves@.len() == 0,
        1 <= request.wants@.len() <= MAX_CANONICAL_CLONE_WANTS,
        forall|i: int|
            0 <= i < request.wants@.len() ==> !(#[trigger] request.wants@[i]).spec_is_zero()
                && request.wants@[i].spec_algo() == algo,
        forall|i: int|
            0 <= i < request.capabilities@.len() ==> !((#[trigger] request.capabilities@[i])
                is Other) && (request.capabilities@[i] matches UploadPackCapability::ObjectFormat(
                format,
            ) ==> format == algo),
{
    lemma_capabilities_passed(request.capabilities@, 0, false, algo);
}

proof fn lemma_capabilities_passed(
    capabilities: Seq<UploadPackCapability>,
    at: int,
    seen: bool,
    algo: HashAlgo,
)
    requires
        0 <= at <= capabilities.len(),
        capability_fault(capabilities, at, seen, algo) is None,
    ensures
        forall|i: int|
            at <= i < capabilities.len() ==> !((#[trigger] capabilities[i]) is Other) && (
            capabilities[i] matches UploadPackCapability::ObjectFormat(format) ==> format == algo),
    decreases capabilities.len() - at,
{
    if at < capabilities.len() {
        lemma_capabilities_passed(
            capabilities,
            at + 1,
            seen || capabilities[at] is ObjectFormat,
            algo,
        );
    }
}

/// The shape of a request holds each of its wants once, in order, asks for tags and offset deltas
/// exactly where the request does, and never for a thin pack.
pub proof fn law_shape_is_that_of_the_request(
    shape: CanonicalCloneShape,
    request: UploadPackRequest,
    scope: CanonicalCloneScope,
    generation: CanonicalCloneGeneration,
    algo: HashAlgo,
    i: int,
    j: int,
)
    requires
        shape.normalizes(request, scope, generation, algo),
    ensures
        shape.scope == scope && shape.generation == generation && shape.hash_algo == algo,
        !shape.representation.thin_pack,
        forall|oid: ObjectId| shape.wants@.contains(oid) <==> #[trigger] request.wants@.contains(
            oid,
        ),
        0 <= i < j < shape.wants@.len() ==> shape.wants@[i] != shape.wants@[j]
            && shape.wants@[i].spec_before(shape.wants@[j]),
        0 <= i < request.capabilities@.len() && request.capabilities@[i] is IncludeTag
            ==> shape.include_tag,
        0 <= i < request.capabilities@.len() && request.capabilities@[i] is OfsDelta
            ==> shape.representation.ofs_delta,
        shape.include_tag ==> exists|k: int|
            0 <= k < request.capabilities@.len() && (#[trigger] request.capabilities@[k])
                is IncludeTag,
        shape.representation.ofs_delta ==> exists|k: int|
            0 <= k < request.capabilities@.len() && (#[trigger] request.capabilities@[k])
                is OfsDelta,
{
    assert forall|oid: ObjectId| shape.wants@.contains(oid) <==> #[trigger] request.wants@.contains(
        oid,
    ) by {
        assert(shape.wants@.to_set().contains(oid) <==> request.wants@.to_set().contains(oid));
    }
}

/// What is found in the store under a key and generation is served only as its own valid and ready
/// manifest; a live builder is waited for, and an unheld flight may be claimed.
pub proof fn law_lookup_tells_the_state(
    flight: CanonicalCloneSingleflight,
    key: CanonicalCloneKey,
    generation: CanonicalCloneGeneration,
    observed_at: Timestamp,
)
    requires
        flight.spec_observed() matches Some(last) ==> last.unix_nanos <= observed_at.unix_nanos,
        flight.spec_key() == key,
        flight.spec_generation() == generation,
    ensures
        match flight.spec_state() {
            CanonicalCloneFlightState::Published(manifest) => manifest.fault() is None
                && manifest.key == key && manifest.generation == generation && manifest.state
                == CanonicalCloneManifestState::Ready ==> flight_lookup(
                flight,
                key,
                generation,
                observed_at,
            ) == Ok::<CanonicalCloneLookup, CanonicalCloneError>(
                CanonicalCloneLookup::Hit(manifest),
            ),
            CanonicalCloneFlightState::Building(lease) => flight_lookup(
                flight,
                key,
                generation,
                observed_at,
            ) == Ok::<CanonicalCloneLookup, CanonicalCloneError>(
                if observed_at.unix_nanos < lease.expires_at.unix_nanos {
                    CanonicalCloneLookup::Building(lease)
                } else {
                    CanonicalCloneLookup::Claimable
                },
            ),
            CanonicalCloneFlightState::Idle { .. } | CanonicalCloneFlightState::Failed { .. } =>
                flight_lookup(flight, key, generation, observed_at) == Ok::<
                    CanonicalCloneLookup,
                    CanonicalCloneError,
                >(CanonicalCloneLookup::Claimable),
            CanonicalCloneFlightState::Invalidated { .. } => flight_lookup(
                flight,
                key,
                generation,
                observed_at,
            ) == Ok::<CanonicalCloneLookup, CanonicalCloneError>(CanonicalCloneLookup::Ineligible),
        },
{
}

/// Where a lookup says that a flight may be claimed, a claim with a newer fence is granted; where it
/// says that a builder is at work, a claim finds it busy; where it hits, a claim finds it published.
pub proof fn law_lookup_agrees_with_claims(
    flight: CanonicalCloneSingleflight,
    observed_at: Timestamp,
    expires_at: Timestamp,
    fencing: u64,
)
    requires
        fencing > 0,
        observed_at.unix_nanos < expires_at.unix_nanos,
        crate::canonical_clone::known_fence(flight.spec_state()) matches Some(last) ==> last
            < fencing,
    ensures
        ({
            let lookup = flight_lookup(
                flight,
                flight.spec_key(),
                flight.spec_generation(),
                observed_at,
            );
            let claim = flight.claim_outcome(fencing, observed_at, expires_at);
            &&& (lookup matches Ok(CanonicalCloneLookup::Claimable)) ==> (claim matches Ok(
                CanonicalCloneClaimResult::Claimed,
            ))
            &&& (lookup matches Ok(CanonicalCloneLookup::Building(_))) ==> (claim matches Ok(
                CanonicalCloneClaimResult::Busy,
            ))
            &&& (lookup matches Ok(CanonicalCloneLookup::Hit(_))) ==> (claim matches Ok(
                CanonicalCloneClaimResult::Published,
            ))
        }),
{
}

/// A store that knows nothing is told as missing, and its failure as its own.
pub proof fn law_store_answers_are_passed_on<E>(
    key: CanonicalCloneKey,
    generation: CanonicalCloneGeneration,
    observed_at: Timestamp,
    failure: E,
)
    ensures
        lookup_of::<E>(Ok(None), key, generation, observed_at) == Ok::<
            CanonicalCloneLookup,
            CanonicalCloneLookupError<E>,
        >(CanonicalCloneLookup::Missing),
        lookup_of::<E>(Err(failure), key, generation, observed_at) == Err::<
            CanonicalCloneLookup,
            CanonicalCloneLookupError<E>,
        >(CanonicalCloneLookupError::Store(failure)),
{
}

/// A served pack has the size, the object count and the checksum that its manifest promises, and
/// ends with the digest of all before it.
pub proof fn law_served_pack_is_the_promised_one(manifest: CanonicalCloneManifest, pack: Seq<u8>)
    requires
        manifest_matches(manifest, pack),
        manifest.size_bytes >= 12 + manifest.hash_algo.spec_len(),
    ensures
        ({
            let n = manifest.hash_algo.spec_len() as int;
            &&& pack.len() == manifest.size_bytes
            &&& pack.take(12) == crate::pack_writer::pack_header(manifest.object_count)
            &&& pack.skip(pack.len() - n) == manifest.pack_checksum@
            &&& manifest.pack_checksum@ == digest_of(
                manifest.hash_algo,
                pack.take(pack.len() - n),
            )
        }),
{
}

/// The chunks of a response are just enough: one less would not hold the pack.
pub proof fn law_chunks_are_just_enough(total: int, chunk: int)
    requires
        total >= 0,
        chunk > 0,
    ensures
        chunk_count(total, chunk) * chunk >= total,
        total > 0 ==> (chunk_count(total, chunk) - 1) * chunk < total,
        total == 0 ==> chunk_count(total, chunk) == 0,
{
    vstd::arithmetic::div_mod::lemma_fundamental_div_mod(total, chunk);
    let q = total / chunk;
    let r = total % chunk;
    assert(q * chunk == chunk * q) by (nonlinear_arith);
    assert((q + 1) * chunk == q * chunk + chunk) by (nonlinear_arith);
    assert((q - 1) * chunk == q * chunk - chunk) by (nonlinear_arith);
    if total == 0 {
        assert(q == 0) by (nonlinear_arith)
            requires
                chunk * q + r == 0,
                0 <= r < chunk,
        ;
    }
}

/// A response is the pack behind eight bytes of acknowledgement; with framing, five more bytes for
/// each chunk and four for the end.
pub proof fn law_response_bytes_add_up(pack_bytes: int, chunk: int)
    ensures
        wire_bytes(pack_bytes, false, chunk) == pack_bytes + 8,
        wire_bytes(pack_bytes, true, chunk) == pack_bytes + 8 + 5 * chunk_count(pack_bytes, chunk)
            + 4,
{
}

/// A read is never longer than allowed, nor past the end, and never empty before it.
pub proof fn law_reads_go_on(total: int, offset: int, maximum: int)
    requires
        0 <= offset < total,
        maximum > 0,
    ensures
        0 < next_length(total, offset, maximum) <= maximum,
        offset + next_length(total, offset, maximum) <= total,
        offset + next_length(total, offset, maximum) == total || next_length(
            total,
            offset,
            maximum,
        ) == maximum,
{
}

/// A serving read takes no more than a range and no more than a packet, and as much as both allow.
pub proof fn law_serving_reads_fit_packets<W: UploadPackWire>(
    wire: W,
    options: CanonicalCloneServeOptions,
)
    ensures
        serving_chunk(wire, options) <= options.range_bytes,
        serving_chunk(wire, options) <= wire.spec_max_chunk(options.stream_limits.max_chunk_bytes),
        serving_chunk(wire, options) == options.range_bytes || serving_chunk(wire, options)
            == wire.spec_max_chunk(options.stream_limits.max_chunk_bytes),
{
}

/// A text fits exactly where some character of it is not white space and it takes no more bytes than
/// allowed: one that takes just as many still fits.
pub proof fn law_text_fits_its_bound(text: Seq<char>, maximum: int)
    ensures
        crate::canonical_clone::text_fits(text, maximum) <==> (maximum >= vstd::utf8::encode_utf8(
            text,
        ).len() && exists|i: int|
            0 <= i < text.len() && !crate::admission::white_space(#[trigger] text[i])),
{
}

/// A flight that moves on keeps its key and its generation, and remembers its new state and when it
/// was observed.
pub proof fn law_flight_keeps_its_key(
    before: crate::canonical_clone::CanonicalCloneSingleflight,
    after: crate::canonical_clone::CanonicalCloneSingleflight,
    state: crate::canonical_clone::CanonicalCloneFlightState,
    observed_at: crate::clock::Timestamp,
)
    ensures
        after.moved_to(before, state, observed_at) <==> (before.spec_key() == after.spec_key()
            && before.spec_generation() == after.spec_generation() && state == after.spec_state()
            && after.spec_observed() is Some && after.spec_observed()->0 == observed_at),
{
}

/// Someone who is not the live builder is told that the flight is over where it was invalidated, and
/// that the claim is stale in every other state.
pub proof fn law_refused_changes_are_told_why(
    state: crate::canonical_clone::CanonicalCloneFlightState,
)
    ensures
        state is Invalidated <==> crate::canonical_clone::refusal(state) is Ineligible,
        !(state is Invalidated) <==> crate::canonical_clone::refusal(state) is Stale,
{
}

/// Identities ascend exactly where each comes before all that follow it.
pub proof fn law_wants_ascend(wants: Seq<crate::object::ObjectId>, i: int, j: int)
    requires
        crate::canonical_clone::ascending(wants),
        0 <= i < wants.len(),
        0 <= j < wants.len(),
    ensures
        i < j ==> wants[i].spec_before(wants[j]),
{
}

/// Every want is spelled as its length and its bytes, one behind the other.
pub proof fn law_wants_are_spelled_in_order(
    wants: Seq<crate::object::ObjectId>,
    want: crate::object::ObjectId,
)
    ensures
        crate::canonical_clone::want_fields(Seq::empty()) == Seq::<u8>::empty(),
        crate::canonical_clone::want_fields(wants.push(want)) == crate::canonical_clone::want_fields(
            wants,
        ) + crate::bytes::be_bytes(want@.len() as int, 4) + want@,
{
    assert(wants.push(want).drop_last() =~= wants);
    assert(crate::canonical_clone::want_fields(wants.push(want))
        =~= crate::canonical_clone::want_fields(wants) + crate::bytes::be_bytes(
        want@.len() as int,
        4,
    ) + want@);
}

/// Of the choices that go into a key, the first is the object format, the second says whether tags
/// come along, and the seventh whether offset deltas may be used; the others are never made.
pub proof fn law_choices_stand_in_their_places(shape: crate::canonical_clone::CanonicalCloneShape)
    ensures
        ({
            let choices = crate::canonical_clone::choices(shape);
            &&& choices.len() == 8
            &&& choices[0] == 1 <==> shape.hash_algo is Sha1
            &&& choices[0] == 2 <==> shape.hash_algo is Sha256
            &&& choices[1] == 1 <==> shape.include_tag
            &&& choices[1] == 0 <==> !shape.include_tag
            &&& choices[6] == 1 <==> shape.representation.ofs_delta
            &&& choices[6] == 0 <==> !shape.representation.ofs_delta
            &&& choices[2] == 0 && choices[3] == 0 && choices[4] == 0 && choices[5] == 0
                && choices[7] == 0
        }),
{
}

/// A served pack was taken in full behind what had been taken before, and is the promised one.
pub proof fn law_complete_service_is_the_whole_pack<W: crate::canonical_clone_serve::UploadPackWire>(
    manifest: crate::canonical_clone::CanonicalCloneManifest,
    before: W,
    after: W,
)
    requires
        crate::canonical_clone_serve::serve_completed(manifest, before, after),
    ensures
        after.spec_state() is Finished,
        before.accepted().is_prefix_of(after.accepted()),
        crate::canonical_clone_serve::manifest_matches(
            manifest,
            after.accepted().subrange(
                before.accepted().len() as int,
                after.accepted().len() as int,
            ),
        ),
{
    let at = before.accepted().len() as int;
    assert(after.accepted().skip(at) =~= after.accepted().subrange(
        at,
        after.accepted().len() as int,
    ));
    assert(before.accepted() =~= after.accepted().subrange(0, at)) by {
        assert(after.accepted().take(at) =~= after.accepted().subrange(0, at));
    }
}

/// A hit belongs to the requested key and generation, has no fault, and is verified, ready and not
/// retired. Anything that is not a hit promises nothing.
pub proof fn law_hits_are_exact(
    manifest: crate::canonical_clone::CanonicalCloneManifest,
    key: crate::canonical_clone::CanonicalCloneKey,
    generation: crate::canonical_clone::CanonicalCloneGeneration,
)
    ensures
        crate::canonical_clone_serve::hit_is_exact(
            crate::canonical_clone_serve::CanonicalCloneLookup::Hit(manifest),
            key,
            generation,
        ) <==> (key == manifest.key && generation == manifest.generation && manifest.fault() is None
            && manifest.verification is Verified && manifest.state is Ready
            && manifest.retire_after is None),
{
}

} // verus!
