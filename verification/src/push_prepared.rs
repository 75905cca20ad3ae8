//! What is known of a push once its PACK has been validated: commands, ancestry, and the quarantine
//! that holds the bytes.

use crate::object::{HashAlgo, ObjectId, RepositoryId, TenantId};
use crate::push_pack_validation::PushPackIndexRow;
use crate::push_quarantine::{QuarantineId, QuarantineIndexAttestation, QuarantineManifest};
use vstd::prelude::*;

verus! {

/// What a command does to its ref.
#[derive(Clone, Copy, Debug, PartialEq, Eq, Structural)]
pub enum PushCommandKind {
    /// Create the ref.
    Create,
    /// Move the ref.
    Update,
    /// Delete the ref.
    Delete,
}

/// One prepared ref command.
#[derive(Debug)]
pub struct PreparedCommand {
    /// Zero-based place in the request.
    pub ordinal: u32,
    /// Ref name.
    pub refname: String,
    /// Old object as the client states it.
    pub old_oid: ObjectId,
    /// New object, null for a delete.
    pub new_oid: ObjectId,
    /// What the command does.
    pub kind: PushCommandKind,
    /// Object that the ref must have, or none for a create.
    pub expected: Option<ObjectId>,
}

/// What is known of a command's ancestry.
#[derive(Clone, Copy, Debug, PartialEq, Eq, Structural)]
pub struct PreparedAncestryContext {
    /// Place of the command.
    pub command_ordinal: u32,
    /// Whether the old object is an ancestor of the new one.
    pub fast_forward: bool,
}

/// Commands that are applied together.
#[derive(Clone, Copy, Debug, PartialEq, Eq, Structural)]
pub struct PreparedCommandGroup {
    /// Whether all or none of the group is applied.
    pub atomic: bool,
}

/// Counts for the audit record.
#[derive(Clone, Copy, Debug, PartialEq, Eq, Structural)]
pub struct PreparedPushAuditSummary {
    /// Commands.
    pub commands: u32,
    /// Objects received.
    pub objects: u32,
    /// PACK bytes received.
    pub pack_bytes: u64,
}

/// The quarantine that a push was prepared from.
#[derive(Clone, Copy, Debug, PartialEq, Eq, Structural)]
pub struct PreparedQuarantine {
    /// Quarantine identity.
    pub id: QuarantineId,
    /// Fenced generation.
    pub generation: u64,
    /// Manifest of the sealed PACK.
    pub manifest: QuarantineManifest,
    /// Validation evidence.
    pub attestation: QuarantineIndexAttestation,
}

/// A prepared push.
#[derive(Debug)]
pub struct PreparedPush {
    /// Owning tenant.
    pub tenant: TenantId,
    /// Owning repository.
    pub repository: RepositoryId,
    /// Object format.
    pub hash_algo: HashAlgo,
    /// Repository generation seen during preparation.
    pub repository_generation: u64,
    /// Fingerprint of the prepared metadata.
    pub fingerprint: ObjectId,
    /// Source quarantine.
    pub quarantine: PreparedQuarantine,
    /// Validated index of the PACK.
    pub pack_index: Vec<PushPackIndexRow>,
    /// Commands in request order.
    pub commands: Vec<PreparedCommand>,
    /// Ancestry by command.
    pub ancestry: Vec<PreparedAncestryContext>,
    /// Commits received.
    pub pushed_commits: Vec<ObjectId>,
    /// Groups of commands.
    pub groups: Vec<PreparedCommandGroup>,
    /// Whether the client asked for an atomic push.
    pub atomic: bool,
    /// Structural objects received.
    pub structural_objects: usize,
    /// Audit counts.
    pub audit_summary: PreparedPushAuditSummary,
}

} // verus!
