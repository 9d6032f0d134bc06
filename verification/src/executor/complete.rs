//! Executions with every outside reply at hand.
//!
//! An execution pauses wherever it needs something from outside. This module
//! states what comes of it as a whole: which check decides first, and which
//! events come out when none objects.
use vstd::prelude::*;

use crate::domain::digest::ContentDigest;
use crate::domain::error::{ProfileError, StateChronicleError};
use crate::domain::event::Event;
use crate::domain::intent::{same_intent, AuthorityProof, Intent, TrustGrantOutcome};
use crate::domain::state::{StateProjection, StateType};
use crate::domain::time::{expired, Timestamp};
use crate::executor::authority::{allowed, binds, failure_report, passes};
use crate::executor::error::ExecutorError;
use crate::executor::execution::{
    accepted_events, bears, begin, by_ref, core_report, gate_report, gates_open, held_by_another,
    misrouted, seal_complete, seal_report, version_of, AwaitEvaluation, AwaitRuleCheck, AwaitRules,
    AwaitState, RuleFacts, Run, Seal, Step,
};
use crate::executor::pipeline::{
    destination_in, intent_store_report, store_report, transfers, trustgrant_report,
};
use crate::executor::transition::{after_state, credited_state, payload_of, refused};
use crate::limits::MAX_INTENT_BYTES;
use crate::ports::errors::{
    IntentStoreError, StateIndexError, TenantStoreError, TrustGrantError,
};

verus! {

/// What an execution comes to.
pub type Outcome = Result<Vec<Event>, ExecutorError>;

/// The replies that an execution asks for before it loads the current state.
pub struct EntryReplies {
    /// The size of the intent's canonical form.
    pub size: Result<usize, StateChronicleError>,
    /// The time.
    pub now: Timestamp,
    /// The stored intent of the same id.
    pub existing: Result<Option<Intent>, IntentStoreError>,
    /// The verification of the signature.
    pub verified: Result<(), ExecutorError>,
    /// The freshness of the presented authority.
    pub fresh: Result<(), TrustGrantError>,
    /// Whether the tenant exists.
    pub known: Result<bool, TenantStoreError>,
}

/// The replies of the state index about the intent's resource.
pub struct StateReplies {
    /// The state under the acting subject, or under the resource alone.
    pub loaded: Result<Option<StateProjection>, StateIndexError>,
    /// The state under the holder that the first one names.
    pub reloaded: Result<Option<StateProjection>, StateIndexError>,
}

/// The replies about authority.
pub struct AuthorityReplies {
    /// What the active profile says about the operation.
    pub rules: Option<RuleFacts>,
    /// The evaluation of each configured authority.
    pub evaluations: Vec<Result<TrustGrantOutcome, TrustGrantError>>,
    /// The digest of the allowing evaluations.
    pub aggregate: ContentDigest,
    /// The freshness of the authority that is bound.
    pub fresh: Result<(), TrustGrantError>,
}

/// The replies that lead from the profile's rules to the claim.
pub struct EventReplies {
    /// The verdict of the profile's rules.
    pub verdict: Result<(), ProfileError>,
    /// What the event needs.
    pub seal: Seal,
    /// The current state of a transfer's destination.
    pub destination: Result<Option<StateProjection>, StateIndexError>,
    /// What the destination's event needs.
    pub destination_seal: Seal,
    /// The claim of the intent id.
    pub claimed: Result<(), IntentStoreError>,
}

// ---------------------------------------------------------------------------
// Entry.
// ---------------------------------------------------------------------------
/// Whether the primary authority is asked about the presented proof.
pub open spec fn freshness_asked(run: Run) -> bool {
    run.intent.authority is Some && run.authorities > 0
}

/// Whether an execution gets as far as the current state.
pub open spec fn entered(run: Run, e: EntryReplies) -> bool {
    &&& !misrouted(run)
    &&& e.size is Ok && e.size->Ok_0 <= MAX_INTENT_BYTES
    &&& !expired(run.intent.expires_at, e.now)
    &&& e.existing is Ok && e.existing->Ok_0 is None
    &&& run.signature is Some ==> e.verified is Ok
    &&& freshness_asked(run) ==> e.fresh is Ok
    &&& run.intent.tenant_id.0@.len() > 0
    &&& e.known is Ok && e.known->Ok_0
    &&& run.intent.state_type is Some
}

/// What comes of an execution that ends before the current state is loaded.
pub open spec fn turned_away(r: Outcome, run: Run, e: EntryReplies) -> bool {
    let id = run.intent.intent_id.0@;
    if misrouted(run) {
        r matches Err(ExecutorError::ValueLegSettleRouting { intent_id }) && intent_id@ == id
    } else if e.size is Err {
        r == Err::<Vec<Event>, ExecutorError>(core_report(e.size->Err_0))
    } else if e.size->Ok_0 > MAX_INTENT_BYTES {
        r matches Err(ExecutorError::SizeLimitExceeded { name, limit, actual }) && name@
            == "intent"@ && limit == MAX_INTENT_BYTES && actual == e.size->Ok_0
    } else if expired(run.intent.expires_at, e.now) {
        r matches Err(ExecutorError::Expired { intent_id }) && intent_id@ == id
    } else if e.existing is Err {
        r is Err && intent_store_report(r->Err_0, e.existing->Err_0, id)
    } else if e.existing->Ok_0 is Some {
        if same_intent(e.existing->Ok_0->0, *run.intent) {
            r is Ok && r->Ok_0@.len() == 0
        } else {
            r matches Err(ExecutorError::DuplicateIntent { intent_id }) && intent_id@ == id
        }
    } else if run.signature is Some && e.verified is Err {
        r == Err::<Vec<Event>, ExecutorError>(e.verified->Err_0)
    } else if freshness_asked(run) && e.fresh is Err {
        r == Err::<Vec<Event>, ExecutorError>(trustgrant_report(e.fresh->Err_0))
    } else if run.intent.tenant_id.0@.len() == 0 {
        r == Err::<Vec<Event>, ExecutorError>(ExecutorError::TenantScopeMissing)
    } else if e.known is Err {
        r is Err && store_report(r->Err_0, e.known->Err_0.text())
    } else if !e.known->Ok_0 {
        r matches Err(ExecutorError::TenantNotFound { tenant }) && tenant@
            == run.intent.tenant_id.0@
    } else {
        r == Err::<Vec<Event>, ExecutorError>(ExecutorError::StateTypeRequired)
    }
}

fn enter_run<'a>(run: Run<'a>, e: EntryReplies) -> (r: Step<'a>)
    ensures
        match r {
            Step::LoadState(next) => entered(run, e) && next.run() == run
                && run.intent.state_type == Some(next.state_type()),
            Step::Done(outcome) => !entered(run, e) && turned_away(outcome, run, e),
            _ => false,
        },
{
    let step = begin(run);
    let step = match step {
        Step::Canonicalize(wait) => wait.resume(e.size, e.now),
        other => other,
    };
    let step = match step {
        Step::LookUpIntent(wait) => wait.resume(e.existing),
        other => other,
    };
    let step = match step {
        Step::VerifySignature(wait) => wait.resume(e.verified),
        other => other,
    };
    let step = match step {
        Step::CheckFreshness(wait) => wait.resume(e.fresh),
        other => other,
    };
    match step {
        Step::FindTenant(wait) => wait.resume(e.known),
        other => other,
    }
}

// ---------------------------------------------------------------------------
// Current state.
// ---------------------------------------------------------------------------
/// The state that an execution goes by: the one loaded first, unless that one
/// names another holder.
pub open spec fn current_state(run: Run, state_type: StateType, s: StateReplies) -> Result<
    Option<StateProjection>,
    StateIndexError,
> {
    match s.loaded {
        Err(failure) => Err(failure),
        Ok(first) => if held_by_another(run, state_type, first) {
            s.reloaded
        } else {
            Ok(first)
        },
    }
}

fn load_state<'a>(wait: AwaitState<'a>, s: StateReplies) -> (r: Step<'a>)
    ensures
        match current_state(wait.run(), wait.state_type(), s) {
            Err(failure) => r is Done && r->Done_0 is Err && store_report(
                r->Done_0->Err_0,
                failure.text(),
            ),
            Ok(current) => if gates_open(wait.run(), current) {
                match r {
                    Step::ResolveRules(next) => next.run() == wait.run() && next.state_type()
                        == wait.state_type() && next.current() == current,
                    _ => false,
                }
            } else {
                r is Done && r->Done_0 is Err && gate_report(
                    r->Done_0->Err_0,
                    wait.run(),
                    current,
                )
            },
        },
{
    match wait.resume(s.loaded) {
        Step::ReloadState(wait) => wait.resume(s.reloaded),
        other => other,
    }
}

// ---------------------------------------------------------------------------
// Authority.
// ---------------------------------------------------------------------------
/// Whether an execution gets as far as the profile's rules with an authority.
pub open spec fn authorized(run: Run, a: AuthorityReplies, authority: Option<AuthorityProof>) -> bool {
    a.rules is Some && match authority {
        None => run.intent.authority is None && !a.rules->0.requires_authority,
        Some(bound) => run.intent.authority is Some && run.authorities > 0 && passes(
            a.rules->0.policy,
            a.evaluations@,
        ) && binds(bound, allowed(a.evaluations@), a.aggregate) && a.fresh is Ok,
    }
}

/// Whether an execution ends for want of rules or authority.
pub open spec fn withheld(run: Run, a: AuthorityReplies) -> bool {
    if a.rules is None {
        true
    } else if run.intent.authority is None {
        a.rules->0.requires_authority
    } else {
        run.authorities == 0 || !passes(a.rules->0.policy, a.evaluations@) || a.fresh is Err
    }
}

/// What comes of an execution that ends for want of rules or authority.
pub open spec fn unauthorized(r: Outcome, run: Run, a: AuthorityReplies) -> bool {
    if a.rules is None {
        refused(r, "unknown state type"@)
    } else if run.intent.authority is None {
        r matches Err(ExecutorError::AuthorityMissing { operation }) && operation@
            == run.intent.operation.0@
    } else if run.authorities == 0 {
        r matches Err(ExecutorError::AuthorityUnavailable(message)) && message@
            == "no authority configured"@
    } else if !passes(a.rules->0.policy, a.evaluations@) {
        r == Err::<Vec<Event>, ExecutorError>(failure_report(a.evaluations@))
    } else {
        r == Err::<Vec<Event>, ExecutorError>(trustgrant_report(a.fresh->Err_0))
    }
}

fn authorize_run<'a>(wait: AwaitRules<'a>, a: AuthorityReplies) -> (r: Step<'a>)
    requires
        a.evaluations@.len() == wait.run().authorities,
    ensures
        match r {
            Step::CheckRules(next) => !withheld(wait.run(), a) && authorized(
                wait.run(),
                a,
                next.authority(),
            ) && next.run()
                == wait.run() && next.state_type() == wait.state_type() && next.current()
                == wait.current(),
            Step::Done(outcome) => withheld(wait.run(), a) && unauthorized(outcome, wait.run(), a),
            _ => false,
        },
{
    let AuthorityReplies { rules, evaluations, aggregate, fresh } = a;
    let step = match wait.resume(rules) {
        Step::Evaluate(wait) => evaluate_all(wait, evaluations),
        other => other,
    };
    let step = match step {
        Step::Aggregate(wait) => wait.resume(aggregate),
        other => other,
    };
    match step {
        Step::CheckBinding(wait) => wait.resume(fresh),
        other => other,
    }
}

fn evaluate_all<'a>(
    wait: AwaitEvaluation<'a>,
    evaluations: Vec<Result<TrustGrantOutcome, TrustGrantError>>,
) -> (r: Step<'a>)
    requires
        evaluations@.len() == wait.run().authorities,
        wait.run().authorities > 0,
        wait.replies().len() == 0,
    ensures
        if passes(wait.policy(), evaluations@) {
            match r {
                Step::Aggregate(next) => next.run() == wait.run() && next.state_type()
                    == wait.state_type() && next.current() == wait.current() && next.policy()
                    == wait.policy() && next.replies() == evaluations@,
                _ => false,
            }
        } else {
            r is Done && r->Done_0 == Err::<Vec<Event>, ExecutorError>(
                failure_report(evaluations@),
            )
        },
{
    let ghost first = wait;
    let ghost all = evaluations@;
    let mut evaluations = evaluations;
    let mut wait = wait;
    while evaluations.len() > 1
        invariant
            wait.run() == first.run(),
            wait.state_type() == first.state_type(),
            wait.current() == first.current(),
            wait.policy() == first.policy(),
            all.len() == wait.run().authorities,
            wait.replies() + evaluations@ == all,
            evaluations@.len() >= 1,
        decreases evaluations@.len(),
    {
        let reply = evaluations.remove(0);
        match wait.resume(reply) {
            Step::Evaluate(next) => {
                wait = next;
            },
            other => {
                return other;
            },
        }
    }
    let reply = evaluations.remove(0);
    assert(wait.replies().push(reply) =~= all);
    wait.resume(reply)
}

// ---------------------------------------------------------------------------
// Rules, events and the claim.
// ---------------------------------------------------------------------------
/// What comes of an execution whose events are complete: they are handed out
/// once the intent id is claimed, where it is to be claimed.
pub open spec fn handed_out(
    r: Outcome,
    run: Run,
    state_type: StateType,
    current: Option<StateProjection>,
    destination: Option<StateProjection>,
    authority: Option<AuthorityProof>,
    v: EventReplies,
) -> bool {
    if run.persist_intent && v.claimed is Err {
        r is Err && intent_store_report(r->Err_0, v.claimed->Err_0, run.intent.intent_id.0@)
    } else {
        &&& r is Ok
        &&& accepted_events(r->Ok_0@, run, state_type, current, destination, authority)
        &&& bears(r->Ok_0@[0], v.seal, current)
        &&& transfers(run.intent.operation.0@) ==> bears(
            r->Ok_0@[1],
            v.destination_seal,
            destination,
        )
    }
}

/// What comes of a transfer whose source event is complete.
pub open spec fn credited(
    r: Outcome,
    run: Run,
    state_type: StateType,
    current: Option<StateProjection>,
    authority: Option<AuthorityProof>,
    v: EventReplies,
) -> bool {
    if destination_in(run.intent.inputs@) is None {
        refused(r, "missing input `to_subject`"@)
    } else if v.destination is Err {
        r is Err && store_report(r->Err_0, v.destination->Err_0.text())
    } else if current is None {
        refused(r, "transfer requires an existing source resource"@)
    } else {
        let destination = v.destination->Ok_0;
        match credited_state(
            current->0.state.payload@,
            payload_of(by_ref(destination)),
            run.intent.operation.0@,
            run.intent.inputs@,
        ) {
            Err(complaint) => refused(r, complaint),
            Ok(_) => if version_of(destination) == u64::MAX {
                refused(r, "version overflow"@)
            } else if !seal_complete(v.destination_seal, destination) {
                r is Err && seal_report(r->Err_0, v.destination_seal, destination)
            } else {
                handed_out(r, run, state_type, current, destination, authority, v)
            },
        }
    }
}

/// What comes of an execution that gets as far as the profile's rules.
pub open spec fn concluded(
    r: Outcome,
    run: Run,
    state_type: StateType,
    current: Option<StateProjection>,
    authority: Option<AuthorityProof>,
    v: EventReplies,
) -> bool {
    match v.verdict {
        Err(failure) => r == Err::<Vec<Event>, ExecutorError>(ExecutorError::Profile(failure)),
        Ok(()) => match after_state(
            by_ref(current),
            run.intent.operation.0@,
            run.intent.inputs@,
        ) {
            Err(complaint) => refused(r, complaint),
            Ok(_) => if version_of(current) == u64::MAX {
                refused(r, "version overflow"@)
            } else if !seal_complete(v.seal, current) {
                r is Err && seal_report(r->Err_0, v.seal, current)
            } else if !transfers(run.intent.operation.0@) {
                handed_out(r, run, state_type, current, None, authority, v)
            } else {
                credited(r, run, state_type, current, authority, v)
            },
        },
    }
}

fn conclude_run<'a>(wait: AwaitRuleCheck<'a>, v: EventReplies) -> (r: Outcome)
    ensures
        concluded(r, wait.run(), wait.state_type(), wait.current(), wait.authority(), v),
{
    let step = wait.resume(v.verdict);
    let step = match step {
        Step::SealEvent(wait) => wait.resume(v.seal),
        other => other,
    };
    let step = match step {
        Step::LoadDestination(wait) => wait.resume(v.destination),
        other => other,
    };
    let step = match step {
        Step::SealDestination(wait) => wait.resume(v.destination_seal),
        other => other,
    };
    let step = match step {
        Step::ClaimIntent(wait) => wait.resume(v.claimed),
        other => other,
    };
    match step {
        Step::Done(outcome) => outcome,
        _ => unreached(),
    }
}

// ---------------------------------------------------------------------------
// The whole.
// ---------------------------------------------------------------------------
/// Every reply that an execution may ask for.
pub struct Replies {
    /// Before the current state is loaded.
    pub entry: EntryReplies,
    /// About the current state.
    pub state: StateReplies,
    /// About authority.
    pub authority: AuthorityReplies,
    /// About rules, events and the claim.
    pub events: EventReplies,
}

/// What comes of an execution: the first check that objects decides, and when
/// none does, the events are handed out.
pub open spec fn executed(r: Outcome, run: Run, w: Replies) -> bool {
    if !entered(run, w.entry) {
        turned_away(r, run, w.entry)
    } else {
        let state_type = run.intent.state_type->0;
        match current_state(run, state_type, w.state) {
            Err(failure) => r is Err && store_report(r->Err_0, failure.text()),
            Ok(current) => if !gates_open(run, current) {
                r is Err && gate_report(r->Err_0, run, current)
            } else if withheld(run, w.authority) {
                unauthorized(r, run, w.authority)
            } else {
                exists|authority: Option<AuthorityProof>| #[trigger]
                    authorized(run, w.authority, authority) && concluded(
                        r,
                        run,
                        state_type,
                        current,
                        authority,
                        w.events,
                    )
            },
        }
    }
}

/// Executes an intent on replies that are all at hand.
pub fn execute<'a>(run: Run<'a>, replies: Replies) -> (r: Outcome)
    requires
        replies.authority.evaluations@.len() == run.authorities,
    ensures
        executed(r, run, replies),
{
    let Replies { entry, state, authority, events } = replies;
    let wait = match enter_run(run, entry) {
        Step::LoadState(wait) => wait,
        Step::Done(outcome) => {
            return outcome;
        },
        _ => unreached(),
    };
    let wait = match load_state(wait, state) {
        Step::ResolveRules(wait) => wait,
        Step::Done(outcome) => {
            return outcome;
        },
        _ => unreached(),
    };
    let wait = match authorize_run(wait, authority) {
        Step::CheckRules(wait) => wait,
        Step::Done(outcome) => {
            return outcome;
        },
        _ => unreached(),
    };
    let ghost bound = wait.authority();
    let r = conclude_run(wait, events);
    assert(authorized(run, replies.authority, bound));
    r
}

/// Events come out of an execution only when every check has passed: entry,
/// conflict gates, authority and the profile's rules. They are those of an
/// accepted intent on the state that was loaded.
pub proof fn law_events_need_every_check(r: Outcome, run: Run, w: Replies)
    requires
        executed(r, run, w),
        r is Ok,
        r->Ok_0@.len() > 0,
    ensures
        entered(run, w.entry),
        !withheld(run, w.authority),
        w.events.verdict is Ok,
        run.persist_intent ==> w.events.claimed is Ok,
        exists|
            current: Option<StateProjection>,
            destination: Option<StateProjection>,
            authority: Option<AuthorityProof>,
        |
            #![trigger accepted_events(r->Ok_0@, run, run.intent.state_type->0, current, destination, authority)]
            current_state(run, run.intent.state_type->0, w.state) == Ok::<
                Option<StateProjection>,
                StateIndexError,
            >(current) && authorized(run, w.authority, authority) && accepted_events(
                r->Ok_0@,
                run,
                run.intent.state_type->0,
                current,
                destination,
                authority,
            ),
{
    let state_type = run.intent.state_type->0;
    let current = current_state(run, state_type, w.state)->Ok_0;
    let authority = choose|authority: Option<AuthorityProof>| #[trigger]
        authorized(run, w.authority, authority) && concluded(
            r,
            run,
            state_type,
            current,
            authority,
            w.events,
        );
    let destination = if transfers(run.intent.operation.0@) {
        w.events.destination->Ok_0
    } else {
        None
    };
    assert(accepted_events(r->Ok_0@, run, state_type, current, destination, authority));
}

/// A repeated intent that was accepted before ends without events and without
/// an error, whatever the state, the authorities and the rules say by now, as
/// long as it has not expired.
pub proof fn law_replays_emit_nothing(r: Outcome, run: Run, w: Replies, stored: Intent)
    requires
        executed(r, run, w),
        !misrouted(run),
        w.entry.size is Ok,
        w.entry.size->Ok_0 <= MAX_INTENT_BYTES,
        !expired(run.intent.expires_at, w.entry.now),
        w.entry.existing == Ok::<Option<Intent>, IntentStoreError>(Some(stored)),
        same_intent(stored, *run.intent),
    ensures
        r is Ok,
        r->Ok_0@.len() == 0,
{
}

/// The intent id is claimed last: an execution that fails although the claim
/// would succeed fails in the same way whatever becomes of the claim.
pub proof fn law_claims_come_last(r: Outcome, run: Run, w: Replies, other: Replies)
    requires
        executed(r, run, w),
        r is Err,
        w.events.claimed is Ok,
        other.entry == w.entry,
        other.state == w.state,
        other.authority == w.authority,
        other.events.verdict == w.events.verdict,
        other.events.seal == w.events.seal,
        other.events.destination == w.events.destination,
        other.events.destination_seal == w.events.destination_seal,
    ensures
        executed(r, run, other),
{
    if !executed(r, run, other) {
        let state_type = run.intent.state_type->0;
        let current = current_state(run, state_type, w.state)->Ok_0;
        let authority = choose|authority: Option<AuthorityProof>| #[trigger]
            authorized(run, w.authority, authority) && concluded(
                r,
                run,
                state_type,
                current,
                authority,
                w.events,
            );
        assert(authorized(run, other.authority, authority));
        assert(concluded(r, run, state_type, current, authority, other.events));
    }
}

} // verus!
