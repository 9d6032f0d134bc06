//! The lifecycle of signing keys.
//!
//! A verified signature is not enough: its key must belong to the actor, be
//! scoped to the tenant and operation, lie within its validity window, and not
//! be retired or revoked.
use vstd::prelude::*;

use crate::domain::ids::{KeyId, Operation, SubjectId, TenantId};
use crate::domain::time::Timestamp;
use crate::text::join2;

verus! {

/// The lifecycle state of a key.
#[derive(Debug, Clone, Copy, PartialEq, Eq, Structural)]
pub enum KeyStatus {
    /// May authenticate new requests.
    Active,
    /// Kept to verify history, but authenticates nothing new.
    Retired,
    /// Suspected compromised: trusted for nothing.
    Revoked,
}

/// What binds a key to an actor and a scope.
#[derive(Debug, Clone, PartialEq, Eq)]
pub struct KeyRecord {
    /// The key.
    pub key_id: KeyId,
    /// The tenant that owns the key.
    pub tenant: TenantId,
    /// The actor that the key belongs to, if it is an actor's key.
    pub subject: Option<SubjectId>,
    /// The permitted operations; none means none.
    pub operations: Vec<Operation>,
    /// When the key becomes valid.
    pub valid_from: Timestamp,
    /// When the key stops being valid, if ever.
    pub valid_until: Option<Timestamp>,
    /// The lifecycle state.
    pub status: KeyStatus,
}

/// A refused or failed key lookup.
#[derive(Debug, Clone, PartialEq, Eq)]
pub enum KeyRegistryError {
    /// No such key.
    NotFound,
    /// The key is not trusted in this context.
    NotTrusted,
    /// The registry cannot be reached.
    Unavailable(String),
}

impl KeyRegistryError {
    /// The rendering of the error.
    pub open spec fn text(self) -> Seq<char> {
        match self {
            KeyRegistryError::NotFound => "key not found"@,
            KeyRegistryError::NotTrusted => "key is not trusted for this context"@,
            KeyRegistryError::Unavailable(m) => "key registry unavailable: "@ + m@,
        }
    }

    /// Renders the error.
    pub fn message(&self) -> (r: String)
        ensures
            r@ == self.text(),
    {
        match self {
            KeyRegistryError::NotFound => "key not found".to_owned(),
            KeyRegistryError::NotTrusted => "key is not trusted for this context".to_owned(),
            KeyRegistryError::Unavailable(m) => join2("key registry unavailable: ", m.as_str()),
        }
    }
}

impl KeyRecord {
    /// Whether an instant lies within the validity window.
    pub open spec fn valid_at(self, at: Timestamp) -> bool {
        !at.precedes(self.valid_from) && match self.valid_until {
            Some(until) => at.precedes(until),
            None => true,
        }
    }

    /// Whether the key is permitted an operation.
    pub open spec fn covers(self, operation: Seq<char>) -> bool {
        exists|i: int|
            0 <= i < self.operations@.len() && (#[trigger] self.operations@[i]).0@ == operation
    }

    /// Whether the key may authenticate a new request of an actor.
    pub open spec fn permitted(
        self,
        tenant: Seq<char>,
        subject: Seq<char>,
        operation: Seq<char>,
        at: Timestamp,
    ) -> bool {
        &&& self.tenant.0@ == tenant
        &&& self.subject is Some
        &&& (self.subject->0).0@ == subject
        &&& self.status == KeyStatus::Active
        &&& self.valid_at(at)
        &&& self.covers(operation)
    }

    /// Whether the key is trusted to have signed a commit.
    pub open spec fn trusted_for_commits(self, tenant: Seq<char>, at: Timestamp) -> bool {
        self.tenant.0@ == tenant && self.valid_at(at) && self.status != KeyStatus::Revoked
    }

    /// Whether the record may be registered.
    pub open spec fn registrable(self) -> bool {
        &&& self.tenant.0@.len() > 0
        &&& self.subject is Some ==> self.operations@.len() > 0
        &&& match self.valid_until {
            Some(until) => self.valid_from.precedes(until),
            None => true,
        }
        &&& self.status != KeyStatus::Revoked
    }

    fn is_valid_at(&self, at: Timestamp) -> (r: bool)
        ensures
            r == self.valid_at(at),
    {
        !at.before(&self.valid_from) && match self.valid_until {
            Some(until) => at.before(&until),
            None => true,
        }
    }

    fn covers_operation(&self, operation: &Operation) -> (r: bool)
        ensures
            r == self.covers(operation.0@),
    {
        let mut i: usize = 0;
        while i < self.operations.len()
            invariant
                i <= self.operations@.len(),
                forall|k: int|
                    0 <= k < i ==> (#[trigger] self.operations@[k]).0@ != operation.0@,
            decreases self.operations@.len() - i,
        {
            if self.operations[i].same(operation) {
                assert(self.operations@[i as int].0@ == operation.0@);
                return true;
            }
            i = i + 1;
        }
        false
    }

    /// Whether the key may authenticate a new request of an actor.
    pub fn permits(
        &self,
        tenant: &TenantId,
        subject: &SubjectId,
        operation: &Operation,
        at: Timestamp,
    ) -> (r: bool)
        ensures
            r == self.permitted(tenant.0@, subject.0@, operation.0@, at),
    {
        let owner = match &self.subject {
            Some(owner) => owner.same(subject),
            None => false,
        };
        let active = match self.status {
            KeyStatus::Active => true,
            KeyStatus::Retired | KeyStatus::Revoked => false,
        };
        self.tenant.same(tenant) && owner && active && self.is_valid_at(at)
            && self.covers_operation(operation)
    }
}

/// The record of a key among records.
pub open spec fn record_in(records: Seq<KeyRecord>, key: Seq<char>) -> Option<KeyRecord>
    decreases records.len(),
{
    if records.len() == 0 {
        None
    } else if records.last().key_id.0@ == key {
        Some(records.last())
    } else {
        record_in(records.drop_last(), key)
    }
}

/// An in-process registry of key records.
pub struct MemoryKeyRegistry {
    records: Vec<KeyRecord>,
}

impl MemoryKeyRegistry {
    /// The record of a key.
    pub closed spec fn record(self, key: Seq<char>) -> Option<KeyRecord> {
        record_in(self.records@, key)
    }

    /// An empty registry.
    pub fn new() -> (r: Self)
        ensures
            forall|key: Seq<char>| r.record(key) is None,
    {
        MemoryKeyRegistry { records: Vec::new() }
    }

    fn position(&self, key_id: &KeyId) -> (r: Option<usize>)
        ensures
            match r {
                Some(i) => i < self.records@.len() && self.records@[i as int].key_id.0@ == key_id.0@
                    && self.record(key_id.0@) == Some(self.records@[i as int]) && forall|k: int|
                    i < k < self.records@.len() ==> (#[trigger] self.records@[k]).key_id.0@
                        != key_id.0@,
                None => self.record(key_id.0@) is None,
            },
    {
        let mut i: usize = self.records.len();
        assert(self.records@.take(i as int) =~= self.records@);
        while i > 0
            invariant
                i <= self.records@.len(),
                record_in(self.records@, key_id.0@) == record_in(
                    self.records@.take(i as int),
                    key_id.0@,
                ),
                forall|k: int|
                    i <= k < self.records@.len() ==> (#[trigger] self.records@[k]).key_id.0@
                        != key_id.0@,
            decreases i,
        {
            let ghost prefix = self.records@.take(i as int);
            assert(prefix.last() == self.records@[i - 1]);
            assert(prefix.drop_last() =~= self.records@.take(i - 1));
            if self.records[i - 1].key_id.same(key_id) {
                return Some(i - 1);
            }
            i = i - 1;
        }
        None
    }

    /// Registers a key.
    ///
    /// Malformed, revoked and already registered keys are refused.
    pub fn register(&mut self, record: KeyRecord) -> (r: Result<(), KeyRegistryError>)
        ensures
            registered(*old(self), *final(self), record, r),
    {
        let well_scoped = match &record.subject {
            Some(_) => record.operations.len() > 0,
            None => true,
        };
        let well_timed = match record.valid_until {
            Some(until) => record.valid_from.before(&until),
            None => true,
        };
        let revoked = match record.status {
            KeyStatus::Revoked => true,
            KeyStatus::Active | KeyStatus::Retired => false,
        };
        if record.tenant.as_str().is_empty() || !well_scoped || !well_timed || revoked {
            return Err(KeyRegistryError::NotTrusted);
        }
        if self.position(&record.key_id).is_some() {
            return Err(KeyRegistryError::NotTrusted);
        }
        let ghost before = self.records@;
        self.records.push(record);
        assert(self.records@.drop_last() =~= before);
        Ok(())
    }

    /// Retires a key: it verifies history, but authenticates nothing new.
    pub fn retire(&mut self, key_id: &KeyId) -> (r: Result<(), KeyRegistryError>)
        ensures
            status_set(*old(self), *final(self), key_id.0@, KeyStatus::Retired, r),
    {
        self.set_status(key_id, KeyStatus::Retired)
    }

    /// Revokes a key, for good.
    pub fn revoke(&mut self, key_id: &KeyId) -> (r: Result<(), KeyRegistryError>)
        ensures
            status_set(*old(self), *final(self), key_id.0@, KeyStatus::Revoked, r),
    {
        self.set_status(key_id, KeyStatus::Revoked)
    }

    /// The record of a key, for audits.
    pub fn get(&self, key_id: &KeyId) -> (r: Option<&KeyRecord>)
        ensures
            match r {
                Some(record) => self.record(key_id.0@) == Some(*record),
                None => self.record(key_id.0@) is None,
            },
    {
        match self.position(key_id) {
            Some(i) => Some(&self.records[i]),
            None => None,
        }
    }

    /// Sets the status of a key. A revoked key keeps its status.
    pub fn set_status(&mut self, key_id: &KeyId, status: KeyStatus) -> (r: Result<
        (),
        KeyRegistryError,
    >)
        ensures
            status_set(*old(self), *final(self), key_id.0@, status, r),
    {
        match self.position(key_id) {
            None => Err(KeyRegistryError::NotFound),
            Some(i) => {
                let locked = match (self.records[i].status, status) {
                    (KeyStatus::Revoked, KeyStatus::Revoked) => false,
                    (KeyStatus::Revoked, _) => true,
                    _ => false,
                };
                if locked {
                    return Err(KeyRegistryError::NotTrusted);
                }
                let ghost before = self.records@;
                self.records[i].status = status;
                proof {
                    let updated = KeyRecord { status, ..before[i as int] };
                    assert(self.records@ =~= before.update(i as int, updated));
                    assert forall|key: Seq<char>| #[trigger] record_in(self.records@, key) == (
                    if key == key_id.0@ {
                        Some(updated)
                    } else {
                        record_in(before, key)
                    }) by {
                        lemma_record_update(before, i as int, updated, key);
                    }
                }
                Ok(())
            },
        }
    }

    /// The key that authenticates a new intent.
    pub fn resolve_intent_key(
        &self,
        tenant: &TenantId,
        subject: &SubjectId,
        key_id: &KeyId,
        operation: &Operation,
        at: Timestamp,
    ) -> (r: Result<&KeyRecord, KeyRegistryError>)
        ensures
            intent_key_resolved(
                *self,
                tenant.0@,
                subject.0@,
                key_id.0@,
                operation.0@,
                at,
                r,
            ),
    {
        match self.get(key_id) {
            None => Err(KeyRegistryError::NotFound),
            Some(record) => if record.permits(tenant, subject, operation, at) {
                Ok(record)
            } else {
                Err(KeyRegistryError::NotTrusted)
            },
        }
    }

    /// The key that signed a commit.
    pub fn resolve_commit_key(&self, tenant: &TenantId, key_id: &KeyId, at: Timestamp) -> (r:
        Result<&KeyRecord, KeyRegistryError>)
        ensures
            commit_key_resolved(*self, tenant.0@, key_id.0@, at, r),
    {
        match self.get(key_id) {
            None => Err(KeyRegistryError::NotFound),
            Some(record) => {
                let revoked = match record.status {
                    KeyStatus::Revoked => true,
                    KeyStatus::Active | KeyStatus::Retired => false,
                };
                if record.tenant.same(tenant) && record.is_valid_at(at) && !revoked {
                    Ok(record)
                } else {
                    Err(KeyRegistryError::NotTrusted)
                }
            },
        }
    }
}

/// What registering a key does: nothing to a registry that refuses it, and
/// otherwise exactly that.
pub open spec fn registered(
    before: MemoryKeyRegistry,
    after: MemoryKeyRegistry,
    record: KeyRecord,
    r: Result<(), KeyRegistryError>,
) -> bool {
    let key = record.key_id.0@;
    if record.registrable() && before.record(key) is None {
        r is Ok && after.record(key) == Some(record) && forall|other: Seq<char>|
            other != key ==> #[trigger] after.record(other) == before.record(other)
    } else {
        r == Err::<(), KeyRegistryError>(KeyRegistryError::NotTrusted) && after == before
    }
}

/// What resolving the key of a new intent gives.
pub open spec fn intent_key_resolved(
    registry: MemoryKeyRegistry,
    tenant: Seq<char>,
    subject: Seq<char>,
    key: Seq<char>,
    operation: Seq<char>,
    at: Timestamp,
    r: Result<&KeyRecord, KeyRegistryError>,
) -> bool {
    match registry.record(key) {
        None => r == Err::<&KeyRecord, KeyRegistryError>(KeyRegistryError::NotFound),
        Some(record) => if record.permitted(tenant, subject, operation, at) {
            r is Ok && *r->Ok_0 == record
        } else {
            r == Err::<&KeyRecord, KeyRegistryError>(KeyRegistryError::NotTrusted)
        },
    }
}

/// What resolving the key of a commit gives.
pub open spec fn commit_key_resolved(
    registry: MemoryKeyRegistry,
    tenant: Seq<char>,
    key: Seq<char>,
    at: Timestamp,
    r: Result<&KeyRecord, KeyRegistryError>,
) -> bool {
    match registry.record(key) {
        None => r == Err::<&KeyRecord, KeyRegistryError>(KeyRegistryError::NotFound),
        Some(record) => if record.trusted_for_commits(tenant, at) {
            r is Ok && *r->Ok_0 == record
        } else {
            r == Err::<&KeyRecord, KeyRegistryError>(KeyRegistryError::NotTrusted)
        },
    }
}

/// What setting a key's status does: nothing to an unknown key, nothing to a
/// revoked key unless it is revoked again, and otherwise exactly that.
pub open spec fn status_set(
    before: MemoryKeyRegistry,
    after: MemoryKeyRegistry,
    key: Seq<char>,
    status: KeyStatus,
    r: Result<(), KeyRegistryError>,
) -> bool {
    match before.record(key) {
        None => r == Err::<(), KeyRegistryError>(KeyRegistryError::NotFound) && after == before,
        Some(record) => if record.status == KeyStatus::Revoked && status != KeyStatus::Revoked {
            r == Err::<(), KeyRegistryError>(KeyRegistryError::NotTrusted) && after == before
        } else {
            r is Ok && after.record(key) == Some(KeyRecord { status, ..record }) && forall|
                other: Seq<char>,
            |
                other != key ==> #[trigger] after.record(other) == before.record(other)
        },
    }
}

proof fn lemma_record_update(
    records: Seq<KeyRecord>,
    at: int,
    updated: KeyRecord,
    key: Seq<char>,
)
    requires
        0 <= at < records.len(),
        updated.key_id == records[at].key_id,
        forall|k: int|
            at < k < records.len() ==> (#[trigger] records[k]).key_id.0@ != updated.key_id.0@,
    ensures
        record_in(records.update(at, updated), key) == (if key == updated.key_id.0@ {
            Some(updated)
        } else {
            record_in(records, key)
        }),
    decreases records.len(),
{
    let changed = records.update(at, updated);
    if at == records.len() - 1 {
        assert(changed.drop_last() =~= records.drop_last());
    } else {
        assert(changed.last() == records.last());
        assert(changed.drop_last() =~= records.drop_last().update(at, updated));
        lemma_record_update(records.drop_last(), at, updated, key);
        assert(records[records.len() - 1].key_id.0@ != updated.key_id.0@);
    }
}

/// A key that may authenticate intents is trusted for commits at the same
/// time.
pub proof fn law_permitted_keys_are_trusted(
    record: KeyRecord,
    tenant: Seq<char>,
    subject: Seq<char>,
    operation: Seq<char>,
    at: Timestamp,
)
    requires
        record.permitted(tenant, subject, operation, at),
    ensures
        record.trusted_for_commits(tenant, at),
{
}

/// Whether one call leads from a registry to another: a registration, a change
/// of status, or a lookup, which leaves it as it is.
pub open spec fn one_call(before: MemoryKeyRegistry, after: MemoryKeyRegistry) -> bool {
    ||| after == before
    ||| exists|record: KeyRecord, r: Result<(), KeyRegistryError>| #[trigger]
        registered(before, after, record, r)
    ||| exists|key: Seq<char>, status: KeyStatus, r: Result<(), KeyRegistryError>| #[trigger]
        status_set(before, after, key, status, r)
}

/// Whether a registry went through the given states, one call at a time.
pub open spec fn call_history(states: Seq<MemoryKeyRegistry>) -> bool {
    states.len() > 0 && forall|i: int|
        0 <= i < states.len() - 1 ==> one_call(#[trigger] states[i], states[i + 1])
}

/// Whether a registry holds a key as revoked.
pub open spec fn holds_revoked(registry: MemoryKeyRegistry, key: Seq<char>) -> bool {
    registry.record(key) is Some && registry.record(key)->0.status == KeyStatus::Revoked
}

/// Revocation is terminal: whatever calls follow, a revoked key stays on
/// record as it was, revoked.
pub proof fn law_revocation_is_terminal(states: Seq<MemoryKeyRegistry>, key: Seq<char>)
    requires
        call_history(states),
        holds_revoked(states[0], key),
    ensures
        holds_revoked(states.last(), key),
        states.last().record(key) == states[0].record(key),
    decreases states.len(),
{
    if states.len() > 1 {
        let earlier = states.drop_last();
        assert forall|i: int| 0 <= i < earlier.len() - 1 implies one_call(
            #[trigger] earlier[i],
            earlier[i + 1],
        ) by {
            assert(one_call(states[i], states[i + 1]));
        }
        law_revocation_is_terminal(earlier, key);
        let at = states.len() - 2;
        assert(one_call(states[at], states[at + 1]));
        assert(states[at] == earlier.last());
    }
}

/// A revoked key is refused everywhere: it cannot be given another status, it
/// cannot be registered again, and it resolves for nothing. Only to revoke it
/// once more succeeds.
pub proof fn law_revoked_keys_are_refused(
    registry: MemoryKeyRegistry,
    after: MemoryKeyRegistry,
    key: Seq<char>,
    status: KeyStatus,
    record: KeyRecord,
    changed: Result<(), KeyRegistryError>,
    resolved: Result<&KeyRecord, KeyRegistryError>,
    tenant: Seq<char>,
    subject: Seq<char>,
    operation: Seq<char>,
    at: Timestamp,
)
    requires
        holds_revoked(registry, key),
    ensures
        status_set(registry, after, key, status, changed) ==> if status == KeyStatus::Revoked {
            changed is Ok
        } else {
            changed == Err::<(), KeyRegistryError>(KeyRegistryError::NotTrusted)
        },
        registered(registry, after, record, changed) && record.key_id.0@ == key ==> changed
            == Err::<(), KeyRegistryError>(KeyRegistryError::NotTrusted),
        intent_key_resolved(registry, tenant, subject, key, operation, at, resolved)
            ==> resolved == Err::<&KeyRecord, KeyRegistryError>(KeyRegistryError::NotTrusted),
        commit_key_resolved(registry, tenant, key, at, resolved) ==> resolved == Err::<
            &KeyRecord,
            KeyRegistryError,
        >(KeyRegistryError::NotTrusted),
{
}

/// Once a key has been revoked, it is revoked in every later state, and every
/// later state refuses it everywhere.
pub proof fn law_revocation_lasts(
    before: MemoryKeyRegistry,
    states: Seq<MemoryKeyRegistry>,
    i: int,
    key: Seq<char>,
    revoked: Result<(), KeyRegistryError>,
    after: MemoryKeyRegistry,
    status: KeyStatus,
    record: KeyRecord,
    changed: Result<(), KeyRegistryError>,
    resolved: Result<&KeyRecord, KeyRegistryError>,
    tenant: Seq<char>,
    subject: Seq<char>,
    operation: Seq<char>,
    at: Timestamp,
)
    requires
        call_history(states),
        status_set(before, states[0], key, KeyStatus::Revoked, revoked),
        revoked is Ok,
        0 <= i < states.len(),
    ensures
        holds_revoked(states[i], key),
        status_set(states[i], after, key, status, changed) ==> if status == KeyStatus::Revoked {
            changed is Ok
        } else {
            changed == Err::<(), KeyRegistryError>(KeyRegistryError::NotTrusted)
        },
        registered(states[i], after, record, changed) && record.key_id.0@ == key ==> changed
            == Err::<(), KeyRegistryError>(KeyRegistryError::NotTrusted),
        intent_key_resolved(states[i], tenant, subject, key, operation, at, resolved)
            ==> resolved == Err::<&KeyRecord, KeyRegistryError>(KeyRegistryError::NotTrusted),
        commit_key_resolved(states[i], tenant, key, at, resolved) ==> resolved == Err::<
            &KeyRecord,
            KeyRegistryError,
        >(KeyRegistryError::NotTrusted),
{
    let past = states.take(i + 1);
    assert forall|j: int| 0 <= j < past.len() - 1 implies one_call(
        #[trigger] past[j],
        past[j + 1],
    ) by {
        assert(one_call(states[j], states[j + 1]));
    }
    law_revocation_is_terminal(past, key);
    law_revoked_keys_are_refused(
        states[i],
        after,
        key,
        status,
        record,
        changed,
        resolved,
        tenant,
        subject,
        operation,
        at,
    );
}

/// A retired key authenticates nothing new.
pub proof fn law_retired_keys_authenticate_nothing(
    record: KeyRecord,
    tenant: Seq<char>,
    subject: Seq<char>,
    operation: Seq<char>,
    at: Timestamp,
)
    requires
        record.status == KeyStatus::Retired,
    ensures
        !record.permitted(tenant, subject, operation, at),
{
}

} // verus!
