use statechronicle::domain::digest::ContentDigest;
use statechronicle::domain::error::StateChronicleError;
use statechronicle::domain::event::Event;
use statechronicle::domain::ids::{
    CommitId, EventId, IntentId, Operation, ResourceId, SubjectId, TenantId,
};
use statechronicle::domain::state::{
    ResourceState, StateCommitment, StateProjection, StateType,
};
use statechronicle::domain::time::read_timestamp;
use statechronicle::index::rebuild::{
    rebuild_progress, rebuild_projections, rebuild_projections_chunk,
    rebuild_projections_resumable, RebuildError, RebuildStep, StreamEvent,
};
use statechronicle::json::{Fields, Value};

fn asset(owner: &str) -> ResourceState {
    let payload = Fields::new()
        .with("owner", Value::text(owner))
        .with("status", Value::text("active"));
    ResourceState::new(StateType::UniqueAsset, Value::object(payload))
}

/// A digest that tells owners apart.
fn digest_of(state: &ResourceState) -> ContentDigest {
    let mut bytes = [0u8; 32];
    for (i, byte) in state.owner().unwrap().bytes().enumerate() {
        bytes[i] = byte;
    }
    ContentDigest::new(bytes)
}

fn transition(
    resource: &str,
    version: u64,
    from: &str,
    to: &str,
    event_id: &str,
) -> StreamEvent {
    let before = asset(from);
    let after = asset(to);
    let before_digest = digest_of(&before);
    let after_digest = digest_of(&after);
    StreamEvent {
        event: Event::new(
            TenantId(String::from("game")),
            EventId::new(String::from(event_id)).unwrap(),
            IntentId::new(format!("int_{event_id}")).unwrap(),
            Operation::new(String::from("asset.transfer")).unwrap(),
            ResourceId(String::from(resource)),
            SubjectId(String::from(to)),
            StateCommitment {
                version: version - 1,
                state_hash: before_digest,
                state: before,
            },
            StateCommitment {
                version,
                state_hash: after_digest,
                state: after,
            },
            None,
            SubjectId(String::from("service:ledger")),
            read_timestamp("2026-01-01T00:00:00Z").unwrap().0,
        ),
        commit_id: CommitId::new(format!("cmt_{event_id}")).unwrap(),
        before_digest: Ok(before_digest),
        after_digest: Ok(after_digest),
    }
}

fn event(version: u64, owner: &str, event_id: &str) -> StreamEvent {
    transition("asset:sword", version, owner, owner, event_id)
}

const FIRST: &str = "evt_01JZ8X2XRE5ZYW5V9R7VDQBSH4";
const SECOND: &str = "evt_01JZ8X5HN3C4PXG5A9FGEWQF5W";

/// Runs a resumable rebuild against a checkpoint, and returns what was
/// written, what was saved, and the outcome.
fn run(
    items: &Vec<StreamEvent>,
    key: &str,
    chunk_size: usize,
    stored: Result<Option<usize>, String>,
    fail_write_at: Option<usize>,
) -> (Vec<StateProjection>, Vec<usize>, Result<u64, RebuildError>) {
    let mut written: Vec<StateProjection> = Vec::new();
    let mut saved: Vec<usize> = Vec::new();
    let mut step = rebuild_projections_resumable(items, key, chunk_size);
    loop {
        step = match step {
            RebuildStep::LoadCheckpoint(next) => next.resume(stored.clone()),
            RebuildStep::WriteProjection(next) => {
                if fail_write_at == Some(written.len()) {
                    next.resume(Err(String::from("disk full")))
                } else {
                    written.push(next.projection().clone());
                    next.resume(Ok(()))
                }
            }
            RebuildStep::SaveCheckpoint(next) => {
                saved.push(next.next_event());
                next.resume(Ok(()))
            }
            RebuildStep::Done(outcome) => return (written, saved, outcome),
        };
    }
}

#[test]
fn empty_event_stream_is_a_noop() {
    let none: Vec<StreamEvent> = Vec::new();
    assert_eq!(rebuild_projections(&none).unwrap().len(), 0);
    assert!(rebuild_projections_chunk(&none, 0, 0).is_err());
    assert_eq!(run(&none, "test", 10, Ok(None), None).2, Ok(0));
}

#[test]
fn rebuild_progress_reports_lag_and_rejects_corrupt_checkpoint() {
    let progress = rebuild_progress(12, 7).unwrap();
    assert_eq!(progress.total_events, 12);
    assert_eq!(progress.next_event, 7);
    assert_eq!(progress.lag_events, 5);
    assert!(!progress.caught_up);

    let caught_up = rebuild_progress(12, 12).unwrap();
    assert_eq!(caught_up.lag_events, 0);
    assert!(caught_up.caught_up);

    assert!(rebuild_progress(12, 13).is_err());
}

#[test]
fn chunk_rebuild_writes_latest_projection_and_checkpoint() {
    let events = vec![event(1, "alice", FIRST), event(2, "bob", SECOND)];
    let (first, next_event) = rebuild_projections_chunk(&events, 0, 1).unwrap();
    assert_eq!(next_event, 1);
    assert_eq!(first.len(), 1);
    let (second, _) = rebuild_projections_chunk(&events, next_event, 1).unwrap();
    assert_eq!(second.last().unwrap().version, 2);
    assert_eq!(second.last().unwrap().state.owner().unwrap(), "bob");
}

#[test]
fn rebuild_rejects_tampered_event_integrity_fields() {
    let mut tampered = event(1, "alice", FIRST);
    tampered.event.after.state_hash = ContentDigest::new([7u8; 32]);
    assert!(rebuild_projections(&vec![tampered]).is_err());

    let mut schema = event(1, "alice", FIRST);
    schema.event.schema = String::from("statechronicle.event.v99");
    assert!(rebuild_projections(&vec![schema]).is_err());

    let mut invalid_commit = event(1, "alice", FIRST);
    invalid_commit.commit_id = CommitId(String::from("not-a-commit-id"));
    assert!(rebuild_projections(&vec![invalid_commit]).is_err());

    let first = event(1, "alice", FIRST);
    let mut duplicate = event(2, "bob", SECOND);
    duplicate.event.event_id = first.event.event_id.clone();
    assert!(rebuild_projections(&vec![first, duplicate]).is_err());
}

fn complaint(items: Vec<StreamEvent>) -> String {
    match rebuild_projections(&items) {
        Err(RebuildError::Invariant(message)) => message,
        other => panic!("expected an unsound stream, got {other:?}"),
    }
}

#[test]
fn every_fault_of_a_stream_has_its_complaint() {
    let mut versions = event(1, "alice", FIRST);
    versions.event.after.version = 3;
    assert_eq!(
        complaint(vec![versions]),
        "event versions must advance by exactly one"
    );
    let mut overflow = event(1, "alice", FIRST);
    overflow.event.before.version = u64::MAX;
    assert_eq!(
        complaint(vec![overflow]),
        "event before-state version overflows"
    );
    let mut undigested = event(1, "alice", FIRST);
    undigested.before_digest = Err(StateChronicleError::Canonicalization(String::from("boom")));
    assert_eq!(complaint(vec![undigested]), "canonicalization failed: boom");
    let mut before = event(1, "alice", FIRST);
    before.before_digest = Ok(ContentDigest::new([9u8; 32]));
    assert_eq!(
        complaint(vec![before]),
        "event before-state digest does not match state"
    );
    let mut types = event(1, "alice", FIRST);
    types.event.after.state.state_type = StateType::Listing;
    assert_eq!(
        complaint(vec![types]),
        "event before/after state types must match"
    );
    let mut scope = event(1, "alice", FIRST);
    scope.event.tenant_id = TenantId(String::new());
    assert_eq!(
        complaint(vec![scope]),
        "event tenant/resource scope must not be empty"
    );
    assert_eq!(
        complaint(vec![event(1, "alice", FIRST), event(2, "bob", SECOND)]),
        "event continuity mismatch for resource `asset:sword`"
    );
}

fn stream() -> Vec<StreamEvent> {
    vec![
        transition("asset:sword", 1, "alice", "bob", "evt_1"),
        transition("asset:axe", 1, "carol", "dave", "evt_2"),
        transition("asset:sword", 2, "bob", "carol", "evt_3"),
        transition("asset:sword", 3, "carol", "erin", "evt_4"),
        transition("asset:axe", 2, "dave", "alice", "evt_5"),
    ]
}

#[test]
fn projections_are_of_the_last_events_in_resource_order() {
    let items = stream();
    let list = rebuild_projections(&items).unwrap();
    assert_eq!(list.len(), 2);
    assert_eq!(list[0].resource_id.0, "asset:axe");
    assert_eq!(list[0].version, 2);
    assert_eq!(list[0].state.owner().unwrap(), "alice");
    assert_eq!(list[1].resource_id.0, "asset:sword");
    assert_eq!(list[1].version, 3);
    assert_eq!(list[1].last_event_id.0, "evt_4");
    assert_eq!(list[1].last_commit_id.0, "cmt_evt_4");
}

#[test]
fn chunked_rebuild_ends_with_the_same_projections() {
    let items = stream();
    let whole = rebuild_projections(&items).unwrap();
    for chunk_size in 1..6usize {
        let (written, saved, outcome) = run(&items, "key", chunk_size, Ok(None), None);
        assert_eq!(outcome, Ok(written.len() as u64));
        assert_eq!(*saved.last().unwrap(), items.len());
        for projection in &whole {
            let last = written
                .iter()
                .filter(|p| p.resource_id == projection.resource_id)
                .last()
                .unwrap();
            assert_eq!(last, projection);
        }
    }
}

#[test]
fn a_failed_write_leaves_the_checkpoint_where_it_was() {
    let items = stream();
    let (written, saved, outcome) = run(&items, "key", 2, Ok(None), Some(2));
    assert_eq!(outcome, Err(RebuildError::Sink(String::from("disk full"))));
    assert_eq!(written.len(), 2);
    assert_eq!(saved, vec![2]);
    let (_, saved, outcome) = run(&items, "key", 2, Ok(Some(2)), None);
    assert_eq!(outcome, Ok(2));
    assert_eq!(saved, vec![4, 5]);
}

#[test]
fn unusable_bounds_and_checkpoints_are_refused() {
    let items = stream();
    assert_eq!(
        run(&items, "", 2, Ok(None), None).2,
        Err(RebuildError::Invariant(String::from(
            "rebuild key and chunk size must be non-empty"
        )))
    );
    assert!(run(&items, "key", 0, Ok(None), None).2.is_err());
    assert_eq!(
        run(&items, "key", 2, Ok(Some(6)), None).2,
        Err(RebuildError::Invariant(String::from(
            "stored rebuild checkpoint exceeds event stream"
        )))
    );
    assert_eq!(
        run(&items, "key", 2, Err(String::from("down")), None).2,
        Err(RebuildError::Sink(String::from("down")))
    );
    assert_eq!(
        rebuild_projections_chunk(&items, 6, 1),
        Err(RebuildError::Invariant(String::from(
            "invalid projection rebuild checkpoint"
        )))
    );
}

#[test]
fn rebuild_errors_render() {
    assert_eq!(
        RebuildError::Invariant(String::from("x")).message(),
        "projection rebuild invariant violation: x"
    );
    assert_eq!(
        RebuildError::Sink(String::from("x")).message(),
        "projection sink unavailable: x"
    );
}
