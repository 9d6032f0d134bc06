//! Mutations with every outside reply at hand: who gets in, and what they get.
use vstd::prelude::*;

use crate::domain::event::Event;
use crate::executor::complete::Outcome;
use crate::executor::error::ExecutorError;
use crate::executor::ingress::{admissible, caller_rejected, enter, Ingress, IngressStep};
use crate::ports::errors::AuthorizationError;
use crate::ports::key_registry::KeyRegistryError;

verus! {

/// Every reply that a mutation may ask for.
pub struct IngressReplies {
    /// Whether the signing key is trusted for the intent.
    pub resolved: Result<(), KeyRegistryError>,
    /// The policy's decision.
    pub decision: Result<(), AuthorizationError>,
    /// What the execution came to.
    pub outcome: Outcome,
    /// The word of the durable sink.
    pub persisted: Result<(), String>,
}

/// What comes of a mutation: the caller is checked first, then the policy is
/// asked, then the intent is executed, and on a durable route its events are
/// stored before they are returned.
pub open spec fn served(r: Outcome, run: Ingress, w: IngressReplies) -> bool {
    if run.route.signed() && run.signature is None {
        caller_rejected(r, "player mutation requires a detached intent signature"@)
    } else if run.route.keyed() && w.resolved is Err {
        caller_rejected(r, w.resolved->Err_0.text())
    } else if !run.principal.bound_to(*run.intent) {
        caller_rejected(r, "authenticated principal is not bound to intent actor and tenant"@)
    } else if w.decision is Err {
        caller_rejected(r, w.decision->Err_0.text())
    } else if w.outcome is Ok && w.outcome->Ok_0@.len() > 0 && run.route.durable()
        && w.persisted is Err {
        r == Err::<Vec<Event>, ExecutorError>(ExecutorError::Store(w.persisted->Err_0))
    } else {
        match w.outcome {
            Ok(events) => r is Ok && r->Ok_0@ == events@,
            Err(error) => r == Err::<Vec<Event>, ExecutorError>(error),
        }
    }
}

/// Serves a mutation on replies that are all at hand.
pub fn serve<'a>(run: Ingress<'a>, replies: IngressReplies) -> (r: Outcome)
    ensures
        served(r, run, replies),
{
    let IngressReplies { resolved, decision, outcome, persisted } = replies;
    let step = match enter(run) {
        IngressStep::ResolveKey(wait) => wait.resume(resolved),
        other => other,
    };
    let step = match step {
        IngressStep::Authorize(wait) => wait.resume(decision),
        other => other,
    };
    let step = match step {
        IngressStep::Execute(wait) => wait.resume(outcome),
        other => other,
    };
    let step = match step {
        IngressStep::Persist(wait) => wait.resume(persisted),
        other => other,
    };
    match step {
        IngressStep::Done(outcome) => outcome,
        _ => unreached(),
    }
}

/// A mutation succeeds only for a caller who is who the intent says, with a
/// signature where the route asks for one, a trusted key where it asks for
/// that, and the policy's leave; and it returns what the execution produced,
/// stored first on a durable route.
pub proof fn law_success_needs_an_admissible_caller(r: Outcome, run: Ingress, w: IngressReplies)
    requires
        served(r, run, w),
        r is Ok,
    ensures
        admissible(run),
        run.route.keyed() ==> w.resolved is Ok,
        w.decision is Ok,
        w.outcome is Ok,
        r->Ok_0@ == w.outcome->Ok_0@,
        run.route.durable() && r->Ok_0@.len() > 0 ==> w.persisted is Ok,
{
}

} // verus!
