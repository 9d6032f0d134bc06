//! Who may change what: the laws of the ways in.
use vstd::prelude::*;

use crate::domain::digest::SignatureBlock;
use crate::domain::event::Event;
use crate::domain::intent::Intent;
use crate::domain::state::{StateProjection, StateType};
use crate::executor::complete::Outcome;
use crate::executor::error::ExecutorError;
use crate::executor::ingress::{
    asks_for, batch_items, checks_item, AdmissionStep, Ingress, KeyQuery, PlayerBatchItem, Route,
};
use crate::executor::pipeline::{
    destination_in, holder_of, intent_store_report, lookup_subject, trustgrant_report,
};
use crate::executor::served::{served, IngressReplies};
use crate::json::{lookup, member, Json};
use crate::ports::authorization::AuthenticatedPrincipal;
use crate::ports::errors::{IntentStoreError, TrustGrantError};

verus! {

/// Whether a principal is the actor of an intent, in the intent's tenant.
pub open spec fn speaks_for(principal: AuthenticatedPrincipal, intent: Intent) -> bool {
    principal.subject.0@ == intent.actor.0@ && principal.tenant.0@ == intent.tenant_id.0@
}

/// Whether a route asks for the signing key to be resolved.
pub open spec fn asks_for_keys(route: Route) -> bool {
    route == Route::PlayerKeyed || route == Route::PlayerDurableKeyed
}

/// Whether a route stores the events before it returns them.
pub open spec fn stores_first(route: Route) -> bool {
    route == Route::PlayerDurable || route == Route::PlayerDurableKeyed
}

/// Whether nothing about the caller stands in a mutation's way: the caller is
/// the intent's own actor, a player has signed it with a key that resolves
/// where the route asks for that, and the policy allows it.
pub open spec fn entitled(run: Ingress, w: IngressReplies) -> bool {
    &&& speaks_for(*run.principal, *run.intent)
    &&& run.route != Route::Authenticated ==> run.signature is Some
    &&& asks_for_keys(run.route) ==> w.resolved is Ok
    &&& w.decision is Ok
}

/// A mutation succeeds exactly for an entitled caller whose intent is executed
/// and whose events, if there are any, are stored where the route stores them.
/// It returns the events of the execution.
pub proof fn law_callers_answer_for_themselves(r: Outcome, run: Ingress, w: IngressReplies)
    requires
        served(r, run, w),
    ensures
        r is Ok <==> entitled(run, w) && w.outcome is Ok && (stores_first(run.route)
            && w.outcome->Ok_0@.len() > 0 ==> w.persisted is Ok),
        r is Ok ==> r->Ok_0@ == w.outcome->Ok_0@,
{
}

/// A caller who is not entitled is rejected as a caller, whatever the intent.
/// An entitled one gets the execution's own refusal, or the store's.
pub proof fn law_refusals_tell_callers_from_intents(r: Outcome, run: Ingress, w: IngressReplies)
    requires
        served(r, run, w),
    ensures
        !entitled(run, w) ==> r is Err && r->Err_0 is ActorAuthenticationFailed,
        entitled(run, w) && w.outcome is Err ==> r == Err::<
            Vec<Event>,
            ExecutorError,
        >(w.outcome->Err_0),
        entitled(run, w) && w.outcome is Ok && r is Err ==> r->Err_0 is Store,
{
}

/// The key that is looked up for an intent is the one that signed it, as the
/// caller's own, in the intent's tenant, for the intent's operation, at the
/// time when the intent was made.
pub proof fn law_keys_are_looked_up_for_the_intent(
    query: KeyQuery,
    intent: Intent,
    principal: AuthenticatedPrincipal,
    signature: SignatureBlock,
)
    requires
        asks_for(query, intent, principal, signature),
    ensures
        query.tenant.0@ == intent.tenant_id.0@,
        query.subject.0@ == principal.subject.0@,
        query.key_id.0@ == signature.key_id.0@,
        query.operation.0@ == intent.operation.0@,
        query.at == intent.created_at,
{
}

/// A player's batch is let in item by item: each one must be signed, and its
/// caller must speak for it, before the policy is asked; the batch runs only
/// when no item is left.
pub proof fn law_every_item_is_checked(r: AdmissionStep, items: Seq<PlayerBatchItem>, at: int)
    requires
        checks_item(r, items, at),
        0 <= at,
    ensures
        r is Admitted <==> at >= items.len(),
        r is Authorize <==> at < items.len() && items[at].signature is Some && speaks_for(
            *items[at].principal,
            *items[at].intent,
        ),
        r is Rejected ==> r->Rejected_0 is ActorAuthenticationFailed,
{
}

/// The batch that runs has the intents of the items, in their order, each under
/// its own tenant.
pub proof fn law_the_items_are_the_batch(items: Seq<PlayerBatchItem>, i: int)
    requires
        0 <= i < items.len(),
    ensures
        batch_items(items).len() == items.len(),
        batch_items(items)[i].tenant.0@ == items[i].intent.tenant_id.0@,
        batch_items(items)[i].intent_id.0@ == items[i].intent.intent_id.0@,
{
}

/// Stacks, balances, entitlements and meters are looked up by their holder, who
/// is the actor until a state says otherwise; other resources have no holder.
pub proof fn law_holdings_are_looked_up_by_holder(
    current: Option<StateProjection>,
    intent: Intent,
    state_type: StateType,
    by: Option<&StateProjection>,
)
    requires
        match (current, by) {
            (Some(projection), Some(same)) => projection == *same,
            (None, None) => true,
            _ => false,
        },
    ensures
        state_type == StateType::UniqueAsset || state_type == StateType::Listing || state_type
            == StateType::Escrow ==> lookup_subject(intent, state_type) is None && holder_of(
            by,
            intent,
            state_type,
        ) is None,
        state_type == StateType::ConsumableStack || state_type == StateType::FungibleBalance
            || state_type == StateType::Entitlement || state_type == StateType::MeteredResource
            ==> {
            &&& lookup_subject(intent, state_type) is Some
            &&& (lookup_subject(intent, state_type)->0).0@ == intent.actor.0@
            &&& holder_of(by, intent, state_type) is Some
            &&& current is None ==> holder_of(by, intent, state_type)->0 == intent.actor.0@
            &&& forall|holder: Seq<char>|
                current is Some && current->0.state.state_type == state_type && holder.len() > 0
                    && #[trigger] named_subject(current->0, holder) ==> holder_of(
                    by,
                    intent,
                    state_type,
                ) == Some(holder)
        },
{
}

/// Whether a resource's payload names a subject.
pub open spec fn named_subject(current: StateProjection, subject: Seq<char>) -> bool {
    member(current.state.payload@, "subject"@) == Some(Json::Str(subject))
}

/// A transfer goes to the subject that its inputs name, and must name one.
pub proof fn law_transfers_name_their_destination(
    inputs: Map<Seq<char>, Json>,
    subject: Seq<char>,
)
    ensures
        destination_in(inputs) == Some(subject) <==> subject.len() > 0 && lookup(
            inputs,
            "to_subject"@,
        ) == Some(Json::Str(subject)),
{
}

/// Failures outside are reported for what they are.
pub proof fn law_outside_failures_are_told_apart(
    error: ExecutorError,
    stored: IntentStoreError,
    granted: TrustGrantError,
    intent_id: Seq<char>,
)
    requires
        intent_store_report(error, stored, intent_id),
    ensures
        stored is Duplicate <==> error is DuplicateIntent,
        stored is Unavailable <==> error is Store,
        granted is Denied <==> trustgrant_report(granted) is AuthorityDenied,
        granted is Stale <==> trustgrant_report(granted) is AuthorityStale,
        granted is Unavailable <==> trustgrant_report(granted) is AuthorityUnavailable,
{
}

} // verus!
