//! Commits: signed batches of events.
use vstd::prelude::*;

use crate::domain::digest::{ContentDigest, SignatureBlock};
use crate::domain::ids::{CommitId, SubjectId, TenantId};
use crate::domain::time::Timestamp;

verus! {

/// What a commit covers.
#[derive(Debug, Clone, Copy, PartialEq, Eq, Structural)]
pub enum ScopeKind {
    /// One tenant.
    Tenant,
    /// The whole ledger.
    Ledger,
}

/// The scope of a commit.
#[derive(Debug, Clone, PartialEq, Eq)]
pub struct CommitScope {
    /// What the commit covers.
    pub kind: ScopeKind,
    /// The tenant, in a tenant's scope.
    pub tenant_id: Option<TenantId>,
}

impl CommitScope {
    /// The scope of one tenant.
    pub fn tenant(tenant_id: TenantId) -> (r: Self)
        ensures
            r.kind == ScopeKind::Tenant,
            r.tenant_id == Some(tenant_id),
    {
        CommitScope { kind: ScopeKind::Tenant, tenant_id: Some(tenant_id) }
    }
}

/// A batch of events with the state roots around it.
#[derive(Debug, Clone, PartialEq, Eq)]
pub struct Commit {
    /// The scope.
    pub scope: CommitScope,
    /// The unique id.
    pub commit_id: CommitId,
    /// The commit before, if any.
    pub previous_commit: Option<CommitId>,
    /// The position in the scope's chain.
    pub sequence: u64,
    /// The number of events.
    pub event_count: u64,
    /// The root over the events.
    pub event_root: ContentDigest,
    /// The root over the state before.
    pub previous_state_root: ContentDigest,
    /// The root over the state after.
    pub next_state_root: ContentDigest,
    /// When the commit was formed.
    pub created_at: Timestamp,
    /// Who formed it.
    pub committer: SubjectId,
    /// The profile in force.
    pub profile: String,
}

/// A body and the detached signature over it.
#[derive(Debug, Clone, PartialEq, Eq)]
pub struct Signed<T> {
    /// The body.
    pub body: T,
    /// The signature.
    pub signature: SignatureBlock,
}

/// What a proof needs to know of a commit.
#[derive(Debug, PartialEq, Eq)]
pub struct CommitRef {
    /// The commit.
    pub commit_id: CommitId,
    /// Its position in the scope's chain.
    pub sequence: u64,
    /// The root over the state after.
    pub state_root: ContentDigest,
    /// The signature over the commit.
    pub signature: SignatureBlock,
}

impl Clone for CommitRef {
    fn clone(&self) -> (r: Self)
        ensures
            r == *self,
    {
        CommitRef {
            commit_id: self.commit_id.clone(),
            sequence: self.sequence,
            state_root: self.state_root,
            signature: self.signature.clone(),
        }
    }
}

} // verus!
