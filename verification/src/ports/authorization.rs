//! Authentication and authorization of mutations.
//!
//! A principal is authenticated outside; here it is bound to the intent that
//! it submits. Without an installed policy every mutation is denied.
use vstd::prelude::*;

use crate::domain::ids::{ResourceId, SubjectId, TenantId};
use crate::domain::intent::Intent;
use crate::ports::errors::AuthorizationError;

verus! {

/// An authenticated identity.
#[derive(Debug, Clone, PartialEq, Eq)]
pub struct AuthenticatedPrincipal {
    /// The authoritative subject.
    pub subject: SubjectId,
    /// The credential or session, for audits.
    pub credential_id: String,
    /// The tenant that the credential is scoped to.
    pub tenant: TenantId,
}

/// What a policy decides on.
pub struct AuthorizationContext<'context> {
    /// The authenticated principal.
    pub principal: &'context AuthenticatedPrincipal,
    /// The tenant to be changed.
    pub tenant: &'context TenantId,
    /// The intent.
    pub intent: &'context Intent,
    /// The resource to be changed.
    pub resource: &'context ResourceId,
}

impl AuthenticatedPrincipal {
    /// Whether the principal is the intent's actor in the intent's tenant.
    pub open spec fn bound_to(self, intent: Intent) -> bool {
        self.tenant.0@ == intent.tenant_id.0@ && self.subject.0@ == intent.actor.0@
    }

    /// Whether the principal is the intent's actor in the intent's tenant.
    pub fn is_bound_to(&self, intent: &Intent) -> (r: bool)
        ensures
            r == self.bound_to(*intent),
    {
        self.tenant.same(&intent.tenant_id) && self.subject.same(&intent.actor)
    }
}

/// The context in which a principal submits an intent.
pub fn authorization_context<'c>(
    principal: &'c AuthenticatedPrincipal,
    intent: &'c Intent,
) -> (r: AuthorizationContext<'c>)
    ensures
        *r.principal == *principal,
        *r.tenant == intent.tenant_id,
        *r.intent == *intent,
        *r.resource == intent.resource_id,
{
    AuthorizationContext {
        principal,
        tenant: &intent.tenant_id,
        intent,
        resource: &intent.resource_id,
    }
}

/// The policy of a deployment that has installed none: deny.
#[derive(Debug, Clone, Copy, Default)]
pub struct DenyAllAuthorizer;

impl DenyAllAuthorizer {
    /// Denies every mutation.
    pub fn authorize(&self, _context: AuthorizationContext<'_>) -> (r: Result<
        (),
        AuthorizationError,
    >)
        ensures
            r == Err::<(), AuthorizationError>(AuthorizationError::Denied),
    {
        Err(AuthorizationError::Denied)
    }
}

} // verus!
