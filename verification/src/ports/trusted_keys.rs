//! Which keys are trusted for what.
use vstd::prelude::*;

use crate::domain::laws::count_of;
use crate::domain::time::Timestamp;
use crate::ports::key_registry::{
    commit_key_resolved, intent_key_resolved, record_in, registered, status_set, KeyRecord,
    KeyRegistryError, KeyStatus, MemoryKeyRegistry,
};

verus! {

/// Whether an instant is within a key's time: from its first instant on, and
/// before its last, if it has one.
pub open spec fn in_time(record: KeyRecord, at: Timestamp) -> bool {
    &&& count_of(record.valid_from) <= count_of(at)
    &&& record.valid_until is Some ==> count_of(at) < count_of(record.valid_until->0)
}

/// Whether a key is an actor's own for an operation: the actor's in that
/// tenant, active, in time, and permitted that very operation.
pub open spec fn acts_for(
    record: KeyRecord,
    tenant: Seq<char>,
    subject: Seq<char>,
    operation: Seq<char>,
    at: Timestamp,
) -> bool {
    &&& record.tenant.0@ == tenant
    &&& record.subject is Some
    &&& (record.subject->0).0@ == subject
    &&& record.status == KeyStatus::Active
    &&& in_time(record, at)
    &&& exists|i: int|
        0 <= i < record.operations@.len() && (#[trigger] record.operations@[i]).0@ == operation
}

/// A key resolves for an intent exactly when it is registered and is the
/// actor's own for the intent's operation; it resolves to its record. An
/// unknown key is told apart from one that is not trusted.
pub proof fn law_intent_keys_are_the_actors_own(
    registry: MemoryKeyRegistry,
    tenant: Seq<char>,
    subject: Seq<char>,
    key: Seq<char>,
    operation: Seq<char>,
    at: Timestamp,
    r: Result<&KeyRecord, KeyRegistryError>,
)
    requires
        intent_key_resolved(registry, tenant, subject, key, operation, at, r),
    ensures
        r is Ok <==> registry.record(key) is Some && acts_for(
            registry.record(key)->0,
            tenant,
            subject,
            operation,
            at,
        ),
        r is Ok ==> *r->Ok_0 == registry.record(key)->0,
        r is Err ==> (r->Err_0 is NotFound <==> registry.record(key) is None),
        r is Err ==> (r->Err_0 is NotTrusted <==> registry.record(key) is Some),
{
    if let Some(record) = registry.record(key) {
        assert(record.covers(operation) <==> exists|i: int|
            0 <= i < record.operations@.len() && (#[trigger] record.operations@[i]).0@
                == operation);
    }
}

/// A key resolves for a commit exactly when it is registered for the commit's
/// tenant, in time, and not revoked: a retired key still verifies what it
/// signed.
pub proof fn law_commit_keys_are_the_tenants(
    registry: MemoryKeyRegistry,
    tenant: Seq<char>,
    key: Seq<char>,
    at: Timestamp,
    r: Result<&KeyRecord, KeyRegistryError>,
)
    requires
        commit_key_resolved(registry, tenant, key, at, r),
    ensures
        r is Ok <==> registry.record(key) is Some && registry.record(key)->0.tenant.0@ == tenant
            && in_time(registry.record(key)->0, at) && registry.record(key)->0.status
            != KeyStatus::Revoked,
        r is Ok ==> *r->Ok_0 == registry.record(key)->0,
        r is Err ==> (r->Err_0 is NotFound <==> registry.record(key) is None),
        r is Err ==> (r->Err_0 is NotTrusted <==> registry.record(key) is Some),
{
}

/// A key is registered exactly when it is new, has a tenant, some operation if
/// it is an actor's, a time that is not empty, and is not revoked. From then on
/// it resolves for what its record says; other keys are left alone.
pub proof fn law_registered_keys_resolve(
    before: MemoryKeyRegistry,
    after: MemoryKeyRegistry,
    record: KeyRecord,
    r: Result<(), KeyRegistryError>,
    other: Seq<char>,
    subject: Seq<char>,
    operation: Seq<char>,
    at: Timestamp,
    resolved: Result<&KeyRecord, KeyRegistryError>,
)
    requires
        registered(before, after, record, r),
    ensures
        r is Ok <==> {
            &&& before.record(record.key_id.0@) is None
            &&& record.tenant.0@.len() > 0
            &&& record.subject is Some ==> record.operations@.len() > 0
            &&& record.valid_until is Some ==> count_of(record.valid_from) < count_of(
                record.valid_until->0,
            )
            &&& record.status != KeyStatus::Revoked
        },
        r is Ok && acts_for(record, record.tenant.0@, subject, operation, at)
            && intent_key_resolved(
            after,
            record.tenant.0@,
            subject,
            record.key_id.0@,
            operation,
            at,
            resolved,
        ) ==> resolved is Ok && *resolved->Ok_0 == record,
        other != record.key_id.0@ || r is Err ==> after.record(other) == before.record(other),
{
    if r is Ok && acts_for(record, record.tenant.0@, subject, operation, at)
        && intent_key_resolved(
        after,
        record.tenant.0@,
        subject,
        record.key_id.0@,
        operation,
        at,
        resolved,
    ) {
        law_intent_keys_are_the_actors_own(
            after,
            record.tenant.0@,
            subject,
            record.key_id.0@,
            operation,
            at,
            resolved,
        );
    }
}

/// A change of status changes the status of that key and nothing else; a
/// revoked key keeps its status.
pub proof fn law_status_changes_change_the_status_only(
    before: MemoryKeyRegistry,
    after: MemoryKeyRegistry,
    key: Seq<char>,
    status: KeyStatus,
    r: Result<(), KeyRegistryError>,
    other: Seq<char>,
)
    requires
        status_set(before, after, key, status, r),
    ensures
        r is Ok <==> before.record(key) is Some && (before.record(key)->0.status
            != KeyStatus::Revoked || status == KeyStatus::Revoked),
        r is Ok ==> {
            let old_record = before.record(key)->0;
            &&& after.record(key) is Some
            &&& after.record(key)->0.status == status
            &&& after.record(key)->0.key_id == old_record.key_id
            &&& after.record(key)->0.tenant == old_record.tenant
            &&& after.record(key)->0.subject == old_record.subject
            &&& after.record(key)->0.operations == old_record.operations
            &&& after.record(key)->0.valid_from == old_record.valid_from
            &&& after.record(key)->0.valid_until == old_record.valid_until
        },
        other != key || r is Err ==> after.record(other) == before.record(other),
{
}

/// The record under a key is one of the records, and has that key.
pub proof fn law_records_are_found_by_their_key(records: Seq<KeyRecord>, key: Seq<char>)
    ensures
        match record_in(records, key) {
            Some(record) => record.key_id.0@ == key && records.contains(record),
            None => forall|i: int|
                0 <= i < records.len() ==> (#[trigger] records[i]).key_id.0@ != key,
        },
    decreases records.len(),
{
    if records.len() > 0 {
        let rest = records.drop_last();
        law_records_are_found_by_their_key(rest, key);
        assert(records[records.len() - 1] == records.last());
        if records.last().key_id.0@ != key {
            if let Some(record) = record_in(rest, key) {
                let i = choose|i: int| 0 <= i < rest.len() && rest[i] == record;
                assert(records[i] == record);
            } else {
                assert forall|i: int| 0 <= i < records.len() implies (
                #[trigger] records[i]).key_id.0@ != key by {
                    if i < rest.len() {
                        assert(rest[i] == records[i]);
                    }
                }
            }
        }
    }
}

} // verus!
