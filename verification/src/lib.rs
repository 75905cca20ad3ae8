//! Verified core of a multi-tenant git server's wire protocol: PACK encoding and reuse, bounded
//! delta planning, object negotiation, push validation and publication, canonical clone sharing,
//! and the fair admission queues in front of them.
//!
//! Every function states its result over mathematical models. Reading, writing, waiting and
//! locking are left to the caller: the functions here decide, compute and account.

pub mod bytes;
pub mod budget;
pub mod clock;
pub mod digest;
pub mod object;
pub mod oid_map;
pub mod varint;
pub mod push_metrics;
pub mod clone_metrics;
pub mod metrics_laws;
pub mod pack_stream;
pub mod delta_code;
pub mod delta_pack;
pub mod format_laws;
pub mod zlib;
pub mod pack_entry_reuse;
pub mod pack_writer;
pub mod pack_laws;
pub mod delta_pack_laws;
pub mod push_quarantine;
pub mod push_pack_validation;
pub mod push_pack_validation_laws;
pub mod push_fix_thin;
pub mod push_fix_thin_laws;
pub mod negotiation;
pub mod negotiation_laws;
pub mod fair_queue;
pub mod admission;
pub mod queue_laws;
pub mod clone_admission;
pub mod clone_admission_laws;
pub mod push_admission;
pub mod push_admission_laws;
pub mod queue_step_laws;
pub mod push_parallel_validation;
pub mod push_parallel_validation_laws;
pub mod canonical_clone;
pub mod canonical_clone_serve;
pub mod canonical_clone_laws;
pub mod push_prepared;
pub mod pack_promotion;
pub mod memory_pack_promotion;
pub mod pg_pack_promotion;
pub mod external_pack_promotion;
pub mod promotion_laws;
pub mod push_atomic_publication;
pub mod push_atomic_publication_laws;
pub mod pack_round_trip;
