//! Fail-closed conflict gates.
//!
//! Pure checks that the pipeline makes before it accepts a transition. Each
//! gate is total: malformed input gives an error, never a panic.
use vstd::prelude::*;

use crate::domain::ids::Operation;
use crate::domain::intent::{same_intent, Intent};
use crate::domain::state::{StateProjection, StateType};
use crate::domain::time::{expired, has_expired, Timestamp};
use crate::executor::error::ExecutorError;
use crate::json::{as_text, lookup, member, Fields, Json};
use crate::text::same_text;

verus! {

/// Whether a status never blocks an operation.
pub open spec fn free_status(status: Seq<char>) -> bool {
    status == "active"@ || status == "granted"@
}

/// Whether a status is final: no operation leaves it.
pub open spec fn terminal_status(status: Seq<char>) -> bool {
    status == "burned"@ || status == "expired"@ || status == "tombstoned"@ || status == "revoked"@
        || status == "redeemed"@ || status == "sold"@ || status == "cancelled"@ || status
        == "released"@ || status == "refunded"@
}

/// Whether a status is a restriction that only a restore lifts.
pub open spec fn exceptional_status(status: Seq<char>) -> bool {
    status == "restricted"@ || status == "quarantined"@ || status == "unsupported"@ || status
        == "legal_hold"@ || status == "fraud_lock"@ || status == "policy_restricted"@
}

/// Whether an operation restores a resource of a type from a restriction.
pub open spec fn restores(state_type: StateType, op: Seq<char>) -> bool {
    op == "asset.restore"@ || (op == "entitlement.restore"@ && state_type
        == StateType::Entitlement)
}

/// The operations that lead out of a blocking status.
pub open spec fn escapes_of(status: Seq<char>) -> Seq<Seq<char>> {
    if status == "locked"@ {
        seq!["asset.unlock"@, "asset.restrict"@]
    } else if status == "escrowed"@ {
        seq!["asset.release"@, "asset.restrict"@]
    } else if status == "listed"@ {
        seq!["asset.delist"@, "asset.redeem"@, "asset.restrict"@]
    } else if status == "suspended"@ {
        seq!["entitlement.restore"@, "entitlement.expire"@]
    } else if status == "granted"@ {
        seq![
            "entitlement.activate"@,
            "entitlement.expire"@,
            "entitlement.revoke"@,
            "entitlement.transfer"@,
        ]
    } else {
        Seq::empty()
    }
}

/// Whether a status lets an operation through.
pub open spec fn status_admits(status: Seq<char>, state_type: StateType, op: Seq<char>) -> bool {
    free_status(status) || (!terminal_status(status) && ((exceptional_status(status) && restores(
        state_type,
        op,
    )) || escapes_of(status).contains(op)))
}

/// Whether a resource's status lets an operation through; a payload without a
/// status lets every operation through.
pub open spec fn available(current: StateProjection, op: Seq<char>) -> bool {
    match as_text(member(current.state.payload@, "status"@)) {
        None => true,
        Some(status) => status_admits(status, current.state_type, op),
    }
}

/// The owner or, failing that, the holder that a payload names.
pub open spec fn holder_in(payload: Json) -> Option<Seq<char>> {
    match as_text(member(payload, "owner"@)) {
        Some(owner) => Some(owner),
        None => as_text(member(payload, "subject"@)),
    }
}

/// The mismatch, if any, between the declared and the recorded owner, as the
/// pair of the recorded and the declared one.
pub open spec fn owner_mismatch(payload: Json, inputs: Map<Seq<char>, Json>) -> Option<
    (Seq<char>, Seq<char>),
> {
    match (holder_in(payload), as_text(lookup(inputs, "from_owner"@))) {
        (Some(expected), Some(actual)) => if expected == actual {
            None
        } else {
            Some((expected, actual))
        },
        _ => None,
    }
}

/// Whether a version is the one that an intent expects: that of the existing
/// resource, or zero when there is none.
pub open spec fn version_expected(intent: Intent, current: Option<&StateProjection>) -> bool {
    intent.expected_version == match current {
        Some(projection) => projection.version,
        None => 0,
    }
}

/// Accepts an intent that expects the current version.
///
/// A missing resource is acceptable only where the intent expects version
/// zero.
pub fn check_expected_version(intent: &Intent, current: Option<&StateProjection>) -> (r: Result<
    (),
    ExecutorError,
>)
    ensures
        r is Ok <==> version_expected(*intent, current),
        match r {
            Ok(()) => true,
            Err(ExecutorError::ResourceNotFound { resource }) => current is None && resource@
                == intent.resource_id.0@,
            Err(ExecutorError::ExpectedVersionMismatch { resource, expected, actual }) =>
                current is Some && resource@ == intent.resource_id.0@ && expected
                == intent.expected_version && actual == current->0.version,
            Err(_) => false,
        },
{
    match current {
        None => {
            if intent.expected_version > 0 {
                Err(ExecutorError::ResourceNotFound { resource: intent.resource_id.0.clone() })
            } else {
                Ok(())
            }
        },
        Some(projection) => {
            if projection.version != intent.expected_version {
                Err(
                    ExecutorError::ExpectedVersionMismatch {
                        resource: intent.resource_id.0.clone(),
                        expected: intent.expected_version,
                        actual: projection.version,
                    },
                )
            } else {
                Ok(())
            }
        },
    }
}

/// Accepts an intent with a tenant scope.
pub fn check_tenant_scope(intent: &Intent) -> (r: Result<(), ExecutorError>)
    ensures
        match r {
            Ok(()) => intent.tenant_id.0@.len() > 0,
            Err(ExecutorError::TenantScopeMissing) => intent.tenant_id.0@.len() == 0,
            Err(_) => false,
        },
{
    if intent.tenant_id.0.as_str().is_empty() {
        Err(ExecutorError::TenantScopeMissing)
    } else {
        Ok(())
    }
}

/// Accepts inputs that declare no `from_owner`, or the recorded owner or
/// holder.
pub fn check_owner(_intent: &Intent, current: Option<&StateProjection>, inputs: &Fields) -> (r:
    Result<(), ExecutorError>)
    ensures
        match r {
            Ok(()) => current is None || owner_mismatch(
                current->0.state.payload@,
                inputs@,
            ) is None,
            Err(ExecutorError::ActorMismatch { expected, actual }) => current is Some
                && owner_mismatch(current->0.state.payload@, inputs@) == Some(
                (expected@, actual@),
            ),
            Err(_) => false,
        },
{
    match current {
        None => Ok(()),
        Some(projection) => {
            let declared = match inputs.get("from_owner") {
                Some(value) => value.as_str(),
                None => None,
            };
            match declared {
                None => Ok(()),
                Some(actual) => {
                    let recorded = match projection.state.payload.text_member("owner") {
                        Some(owner) => Some(owner),
                        None => projection.state.payload.text_member("subject"),
                    };
                    match recorded {
                        None => Ok(()),
                        Some(expected) => {
                            if same_text(actual, expected) {
                                Ok(())
                            } else {
                                Err(
                                    ExecutorError::ActorMismatch {
                                        expected: expected.to_owned(),
                                        actual: actual.to_owned(),
                                    },
                                )
                            }
                        },
                    }
                },
            }
        },
    }
}

/// Whether a status never blocks an operation.
pub fn is_free_status(status: &str) -> (r: bool)
    ensures
        r == free_status(status@),
{
    same_text(status, "active") || same_text(status, "granted")
}

/// Whether a status is final.
pub fn is_terminal_status(status: &str) -> (r: bool)
    ensures
        r == terminal_status(status@),
{
    same_text(status, "burned") || same_text(status, "expired") || same_text(status, "tombstoned")
        || same_text(status, "revoked") || same_text(status, "redeemed") || same_text(
        status,
        "sold",
    ) || same_text(status, "cancelled") || same_text(status, "released") || same_text(
        status,
        "refunded",
    )
}

/// Whether a status is a restriction that only a restore lifts.
pub fn is_exceptional_status(status: &str) -> (r: bool)
    ensures
        r == exceptional_status(status@),
{
    same_text(status, "restricted") || same_text(status, "quarantined") || same_text(
        status,
        "unsupported",
    ) || same_text(status, "legal_hold") || same_text(status, "fraud_lock") || same_text(
        status,
        "policy_restricted",
    )
}

/// The operations that lead out of a blocking status.
pub fn status_escapes(status: &str) -> (r: Vec<&'static str>)
    ensures
        r@.len() == escapes_of(status@).len(),
        forall|i: int| 0 <= i < r@.len() ==> (#[trigger] r@[i])@ == escapes_of(status@)[i],
{
    if same_text(status, "locked") {
        vec!["asset.unlock", "asset.restrict"]
    } else if same_text(status, "escrowed") {
        vec!["asset.release", "asset.restrict"]
    } else if same_text(status, "listed") {
        vec!["asset.delist", "asset.redeem", "asset.restrict"]
    } else if same_text(status, "suspended") {
        vec!["entitlement.restore", "entitlement.expire"]
    } else if same_text(status, "granted") {
        vec![
            "entitlement.activate",
            "entitlement.expire",
            "entitlement.revoke",
            "entitlement.transfer",
        ]
    } else {
        Vec::new()
    }
}

fn is_escape(status: &str, operation: &Operation) -> (r: bool)
    ensures
        r == escapes_of(status@).contains(operation.0@),
{
    let escapes = status_escapes(status);
    let mut i: usize = 0;
    while i < escapes.len()
        invariant
            i <= escapes@.len(),
            escapes@.len() == escapes_of(status@).len(),
            forall|k: int|
                0 <= k < escapes@.len() ==> (#[trigger] escapes@[k])@ == escapes_of(status@)[k],
            forall|k: int| 0 <= k < i ==> escapes_of(status@)[k] != operation.0@,
        decreases escapes@.len() - i,
    {
        if operation.is(escapes[i]) {
            assert(escapes_of(status@)[i as int] == operation.0@);
            return true;
        }
        i = i + 1;
    }
    false
}

/// Accepts an operation that the resource's status lets through.
pub fn check_resource_availability(current: &StateProjection, operation: &Operation) -> (r: Result<
    (),
    ExecutorError,
>)
    ensures
        match r {
            Ok(()) => available(*current, operation.0@),
            Err(ExecutorError::ResourceLocked { resource }) => !available(*current, operation.0@)
                && resource@ == current.resource_id.0@,
            Err(_) => false,
        },
{
    match current.state.payload.text_member("status") {
        None => Ok(()),
        Some(status) => {
            if is_free_status(status) {
                return Ok(());
            }
            if !is_terminal_status(status) {
                let restored = operation.is("asset.restore") || (operation.is(
                    "entitlement.restore",
                ) && current.state_type == StateType::Entitlement);
                if (is_exceptional_status(status) && restored) || is_escape(status, operation) {
                    return Ok(());
                }
            }
            Err(ExecutorError::ResourceLocked { resource: current.resource_id.0.clone() })
        },
    }
}

/// Accepts an intent that has not expired.
pub fn check_expiry(intent: &Intent, now: Timestamp) -> (r: Result<(), ExecutorError>)
    ensures
        match r {
            Ok(()) => !expired(intent.expires_at, now),
            Err(ExecutorError::Expired { intent_id }) => expired(intent.expires_at, now)
                && intent_id@ == intent.intent_id.0@,
            Err(_) => false,
        },
{
    if has_expired(intent.expires_at, now) {
        Err(ExecutorError::Expired { intent_id: intent.intent_id.0.clone() })
    } else {
        Ok(())
    }
}

/// Accepts a replay of an accepted intent, and refuses another intent under
/// the same id.
pub fn check_idempotency_existing(existing: &Intent, incoming: &Intent) -> (r: Result<
    (),
    ExecutorError,
>)
    ensures
        match r {
            Ok(()) => same_intent(*existing, *incoming),
            Err(ExecutorError::DuplicateIntent { intent_id }) => !same_intent(
                *existing,
                *incoming,
            ) && intent_id@ == incoming.intent_id.0@,
            Err(_) => false,
        },
{
    if existing.same(incoming) {
        Ok(())
    } else {
        Err(ExecutorError::DuplicateIntent { intent_id: incoming.intent_id.0.clone() })
    }
}

/// A terminal status blocks every operation, restores included.
pub proof fn law_terminal_statuses_block_everything(
    status: Seq<char>,
    state_type: StateType,
    op: Seq<char>,
)
    requires
        terminal_status(status),
    ensures
        !status_admits(status, state_type, op),
{
    reveal_strlit("active");
    reveal_strlit("granted");
    reveal_strlit("burned");
    reveal_strlit("expired");
    reveal_strlit("tombstoned");
    reveal_strlit("revoked");
    reveal_strlit("redeemed");
    reveal_strlit("sold");
    reveal_strlit("cancelled");
    reveal_strlit("released");
    reveal_strlit("refunded");
    if free_status(status) {
        if status == "granted"@ {
            assert("granted"@[0] == 'g');
        } else {
            assert("active"@[0] == 'a');
        }
        assert("burned"@[0] == 'b');
        assert("expired"@[0] == 'e');
        assert("tombstoned"@[0] == 't');
        assert("revoked"@[0] == 'r');
        assert("redeemed"@[0] == 'r');
        assert("sold"@[0] == 's');
        assert("cancelled"@[0] == 'c');
        assert("released"@[0] == 'r');
        assert("refunded"@[0] == 'r');
        assert(false);
    }
}

/// A status that no rule knows blocks every operation.
pub proof fn law_unknown_statuses_block_everything(
    status: Seq<char>,
    state_type: StateType,
    op: Seq<char>,
)
    requires
        !free_status(status),
        !exceptional_status(status),
        escapes_of(status).len() == 0,
    ensures
        !status_admits(status, state_type, op),
{
}

/// An intent is a replay of itself, and being a replay is symmetric and
/// transitive.
pub proof fn law_replay_is_an_equivalence(a: Intent, b: Intent, c: Intent)
    ensures
        same_intent(a, a),
        same_intent(a, b) ==> same_intent(b, a),
        same_intent(a, b) && same_intent(b, c) ==> same_intent(a, c),
{
}

} // verus!
