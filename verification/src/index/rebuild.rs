//! Rebuilding state projections from the events that made them.
//!
//! A stream of events is checked as a whole before any projection is written:
//! every event must be intact, no event may occur twice, and the events of a
//! resource must follow each other without a gap. The projection of a resource
//! is then the state after its last event. A long stream is worked through in
//! chunks, with a checkpoint after each.
use vstd::prelude::*;

use crate::domain::digest::ContentDigest;
use crate::domain::error::StateChronicleError;
use crate::domain::event::{Event, EVENT_SCHEMA};
use crate::domain::ids::{valid_id, CommitId};
use crate::domain::state::StateProjection;
use crate::text::{
    join2, join3, lemma_text_lt_irreflexive, lemma_text_lt_total, lemma_text_lt_transitive,
    same_text, text_less, text_lt,
};

verus! {

/// A failed rebuild.
#[derive(Debug, Clone, PartialEq, Eq)]
pub enum RebuildError {
    /// The events, or the bounds of the work, are not sound.
    Invariant(String),
    /// A projection or checkpoint could not be stored.
    Sink(String),
}

impl RebuildError {
    /// The rendering of the error.
    pub open spec fn text(self) -> Seq<char> {
        match self {
            RebuildError::Invariant(m) => "projection rebuild invariant violation: "@ + m@,
            RebuildError::Sink(m) => "projection sink unavailable: "@ + m@,
        }
    }

    /// Renders the error.
    pub fn message(&self) -> (r: String)
        ensures
            r@ == self.text(),
    {
        match self {
            RebuildError::Invariant(m) => join2(
                "projection rebuild invariant violation: ",
                m.as_str(),
            ),
            RebuildError::Sink(m) => join2("projection sink unavailable: ", m.as_str()),
        }
    }
}

/// How far a chunk of a rebuild went.
#[derive(Debug, Clone, Copy, PartialEq, Eq, Structural)]
pub struct RebuildCheckpoint {
    /// The next event to process.
    pub next_event: usize,
    /// The number of projections that the chunk wrote.
    pub projections_written: u64,
}

/// How far a rebuild has come.
#[derive(Debug, Clone, Copy, PartialEq, Eq, Structural)]
pub struct RebuildProgress {
    /// The number of events in the stream.
    pub total_events: usize,
    /// The next event to process.
    pub next_event: usize,
    /// The number of events to go.
    pub lag_events: usize,
    /// Whether there are none to go.
    pub caught_up: bool,
}

/// Whether a result reports an unsound stream or bound.
pub open spec fn unsound<T>(r: Result<T, RebuildError>, complaint: Seq<char>) -> bool {
    match r {
        Err(RebuildError::Invariant(message)) => message@ == complaint,
        _ => false,
    }
}

/// How far a rebuild has come. A checkpoint beyond the stream is refused, not
/// clamped.
pub fn rebuild_progress(total_events: usize, next_event: usize) -> (r: Result<
    RebuildProgress,
    RebuildError,
>)
    ensures
        if next_event > total_events {
            unsound(r, "rebuild checkpoint exceeds canonical event stream"@)
        } else {
            r == Ok::<RebuildProgress, RebuildError>(
                RebuildProgress {
                    total_events,
                    next_event,
                    lag_events: (total_events - next_event) as usize,
                    caught_up: total_events == next_event,
                },
            )
        },
{
    if next_event > total_events {
        return Err(
            RebuildError::Invariant(
                "rebuild checkpoint exceeds canonical event stream".to_owned(),
            ),
        );
    }
    let lag_events: usize = total_events - next_event;
    Ok(RebuildProgress { total_events, next_event, lag_events, caught_up: lag_events == 0 })
}

// ---------------------------------------------------------------------------
// The stream.
// ---------------------------------------------------------------------------
/// An event of a stream, with the commit that pinned it and the digests of
/// its states.
#[derive(Debug)]
pub struct StreamEvent {
    /// The event.
    pub event: Event,
    /// The commit.
    pub commit_id: CommitId,
    /// The digest of the state before.
    pub before_digest: Result<ContentDigest, StateChronicleError>,
    /// The digest of the state after.
    pub after_digest: Result<ContentDigest, StateChronicleError>,
}

/// What is wrong with an event by itself, if anything.
pub open spec fn event_complaint(item: StreamEvent) -> Option<Seq<char>> {
    let event = item.event;
    if event.schema@ != EVENT_SCHEMA@ {
        Some("event schema is not the supported v0 schema"@)
    } else if !valid_id(item.commit_id.0@, "cmt_"@) {
        Some("invalid projection commit id: "@ + commit_id_complaint(item.commit_id.0@))
    } else if event.before.version == u64::MAX {
        Some("event before-state version overflows"@)
    } else if event.after.version != event.before.version + 1 {
        Some("event versions must advance by exactly one"@)
    } else if item.before_digest is Err {
        Some(item.before_digest->Err_0.text())
    } else if item.before_digest->Ok_0.bytes@ != event.before.state_hash.bytes@ {
        Some("event before-state digest does not match state"@)
    } else if item.after_digest is Err {
        Some(item.after_digest->Err_0.text())
    } else if item.after_digest->Ok_0.bytes@ != event.after.state_hash.bytes@ {
        Some("event after-state digest does not match state"@)
    } else if event.before.state.state_type != event.after.state.state_type {
        Some("event before/after state types must match"@)
    } else {
        None
    }
}

/// The rendering of a malformed commit id.
pub open spec fn commit_id_complaint(id: Seq<char>) -> Seq<char> {
    "invalid id: "@ + ("commit id `"@ + id + "` must start with `cmt_`"@)
}

/// Whether two events concern the same resource of the same tenant.
pub open spec fn same_place(a: StreamEvent, b: StreamEvent) -> bool {
    a.event.tenant_id.0@ == b.event.tenant_id.0@ && a.event.resource_id.0@
        == b.event.resource_id.0@
}

/// Whether an event is the last one on a resource before a position.
pub open spec fn last_before(items: Seq<StreamEvent>, at: int, of: int) -> bool {
    0 <= at < of && same_place(items[at], items[of]) && forall|k: int|
        at < k < of ==> !same_place(#[trigger] items[k], items[of])
}

/// Whether an event follows another without a gap.
pub open spec fn continues(earlier: Event, later: Event) -> bool {
    later.before.version == earlier.after.version && later.before.state_hash.bytes@
        == earlier.after.state_hash.bytes@
}

/// Whether an event repeats the id of an earlier one.
pub open spec fn repeats(items: Seq<StreamEvent>, at: int) -> bool {
    exists|k: int|
        0 <= k < at && (#[trigger] items[k]).event.event_id.0@ == items[at].event.event_id.0@
}

/// Whether an event leaves a gap after the last one on its resource.
pub open spec fn leaves_gap(items: Seq<StreamEvent>, at: int) -> bool {
    exists|k: int| #[trigger]
        last_before(items, k, at) && !continues(items[k].event, items[at].event)
}

/// What is wrong with the event at a position of a stream, if anything.
pub open spec fn stream_complaint(items: Seq<StreamEvent>, at: int) -> Option<Seq<char>> {
    let event = items[at].event;
    if event_complaint(items[at]) is Some {
        event_complaint(items[at])
    } else if event.tenant_id.0@.len() == 0 || event.resource_id.0@.len() == 0 {
        Some("event tenant/resource scope must not be empty"@)
    } else if repeats(items, at) {
        Some("duplicate event id `"@ + event.event_id.0@ + "` in rebuild stream"@)
    } else if leaves_gap(items, at) {
        Some("event continuity mismatch for resource `"@ + event.resource_id.0@ + "`"@)
    } else {
        None
    }
}

/// Whether a stream is sound.
pub open spec fn stream_sound(items: Seq<StreamEvent>) -> bool {
    forall|k: int| 0 <= k < items.len() ==> #[trigger] stream_complaint(items, k) is None
}

/// Whether the event at a position is the first that is not sound.
pub open spec fn first_unsound(items: Seq<StreamEvent>, at: int) -> bool {
    0 <= at < items.len() && stream_complaint(items, at) is Some && forall|k: int|
        0 <= k < at ==> #[trigger] stream_complaint(items, k) is None
}

/// What comes of checking a stream.
pub open spec fn checked<T>(r: Result<T, RebuildError>, items: Seq<StreamEvent>) -> bool {
    if stream_sound(items) {
        r is Ok
    } else {
        exists|at: int| #[trigger]
            first_unsound(items, at) && unsound(r, stream_complaint(items, at)->0)
    }
}

/// Checks an event by itself.
pub fn validate_event_for_rebuild(item: &StreamEvent) -> (r: Result<(), RebuildError>)
    ensures
        match event_complaint(*item) {
            Some(complaint) => unsound(r, complaint),
            None => r is Ok,
        },
{
    if !same_text(item.event.schema.as_str(), EVENT_SCHEMA) {
        return Err(
            RebuildError::Invariant("event schema is not the supported v0 schema".to_owned()),
        );
    }
    if let Err(failure) = CommitId::new(item.commit_id.0.clone()) {
        let text = failure.message();
        return Err(
            RebuildError::Invariant(join2("invalid projection commit id: ", text.as_str())),
        );
    }
    if item.event.before.version == u64::MAX {
        return Err(RebuildError::Invariant("event before-state version overflows".to_owned()));
    }
    if item.event.after.version != item.event.before.version + 1 {
        return Err(
            RebuildError::Invariant("event versions must advance by exactly one".to_owned()),
        );
    }
    match &item.before_digest {
        Err(failure) => return Err(RebuildError::Invariant(failure.message())),
        Ok(digest) => if !digest.same(&item.event.before.state_hash) {
            return Err(
                RebuildError::Invariant(
                    "event before-state digest does not match state".to_owned(),
                ),
            );
        },
    }
    match &item.after_digest {
        Err(failure) => return Err(RebuildError::Invariant(failure.message())),
        Ok(digest) => if !digest.same(&item.event.after.state_hash) {
            return Err(
                RebuildError::Invariant(
                    "event after-state digest does not match state".to_owned(),
                ),
            );
        },
    }
    if item.event.before.state.state_type != item.event.after.state.state_type {
        return Err(
            RebuildError::Invariant("event before/after state types must match".to_owned()),
        );
    }
    Ok(())
}

fn at_same_place(a: &StreamEvent, b: &StreamEvent) -> (r: bool)
    ensures
        r == same_place(*a, *b),
{
    a.event.tenant_id.same(&b.event.tenant_id) && a.event.resource_id.same(&b.event.resource_id)
}

/// Checks the event at a position of a part of a stream.
fn check_at(items: &Vec<StreamEvent>, from: usize, at: usize) -> (r: Result<(), RebuildError>)
    requires
        from <= at < items@.len(),
    ensures
        ({
            let part = items@.subrange(from as int, at + 1);
            match stream_complaint(part, at - from) {
                Some(complaint) => unsound(r, complaint),
                None => r is Ok,
            }
        }),
{
    let ghost part = items@.subrange(from as int, at + 1);
    let ghost of = at - from;
    let item = &items[at];
    assert(part[of] == *item);
    match validate_event_for_rebuild(item) {
        Ok(()) => {},
        Err(failure) => return Err(failure),
    }
    if item.event.tenant_id.0.as_str().is_empty() || item.event.resource_id.0.as_str().is_empty() {
        return Err(
            RebuildError::Invariant("event tenant/resource scope must not be empty".to_owned()),
        );
    }
    let mut i: usize = from;
    while i < at
        invariant
            from <= i <= at < items@.len(),
            part == items@.subrange(from as int, at + 1),
            *item == items@[at as int],
            of == at - from,
            part[of] == *item,
            event_complaint(*item) is None,
            item.event.tenant_id.0@.len() > 0 && item.event.resource_id.0@.len() > 0,
            forall|k: int|
                0 <= k < i - from ==> (#[trigger] part[k]).event.event_id.0@
                    != item.event.event_id.0@,
        decreases at - i,
    {
        assert(part[i - from] == items@[i as int]);
        if items[i].event.event_id.same(&item.event.event_id) {
            assert(repeats(part, of));
            return Err(
                RebuildError::Invariant(
                    join3(
                        "duplicate event id `",
                        item.event.event_id.as_str(),
                        "` in rebuild stream",
                    ),
                ),
            );
        }
        i = i + 1;
    }
    assert(!repeats(part, of));
    let mut j: usize = at;
    while j > from
        invariant
            from <= j <= at < items@.len(),
            part == items@.subrange(from as int, at + 1),
            *item == items@[at as int],
            of == at - from,
            part[of] == *item,
            event_complaint(*item) is None,
            item.event.tenant_id.0@.len() > 0 && item.event.resource_id.0@.len() > 0,
            !repeats(part, of),
            forall|k: int|
                j - from <= k < of ==> !same_place(#[trigger] part[k], part[of]),
        decreases j,
    {
        let k: usize = j - 1;
        assert(part[k - from] == items@[k as int]);
        if at_same_place(&items[k], item) {
            assert(last_before(part, k - from, of));
            proof {
                assert forall|m: int| #[trigger] last_before(part, m, of) implies m == k - from by {
                    if m < k - from {
                        assert(!same_place(part[k - from], part[of]));
                    }
                }
            }
            let gap = items[k].event.after.version != item.event.before.version
                || !item.event.before.state_hash.same(&items[k].event.after.state_hash);
            if gap {
                assert(leaves_gap(part, of));
                return Err(
                    RebuildError::Invariant(
                        join3(
                            "event continuity mismatch for resource `",
                            item.event.resource_id.as_str(),
                            "`",
                        ),
                    ),
                );
            }
            assert(!leaves_gap(part, of));
            return Ok(());
        }
        j = k;
    }
    assert(!leaves_gap(part, of)) by {
        if leaves_gap(part, of) {
            let k = choose|k: int| #[trigger]
                last_before(part, k, of) && !continues(part[k].event, part[of].event);
            assert(!same_place(part[k], part[of]));
        }
    }
    Ok(())
}

/// A complaint about an event depends on what comes before it only.
pub proof fn lemma_prefix_complaint(items: Seq<StreamEvent>, upto: int, at: int)
    requires
        0 <= at < upto <= items.len(),
    ensures
        stream_complaint(items.take(upto), at) == stream_complaint(items, at),
{
    let part = items.take(upto);
    assert(part[at] == items[at]);
    if repeats(items, at) {
        let k = choose|k: int|
            0 <= k < at && (#[trigger] items[k]).event.event_id.0@ == items[at].event.event_id.0@;
        assert(part[k].event.event_id.0@ == part[at].event.event_id.0@);
    }
    if repeats(part, at) {
        let k = choose|k: int|
            0 <= k < at && (#[trigger] part[k]).event.event_id.0@ == part[at].event.event_id.0@;
        assert(items[k].event.event_id.0@ == items[at].event.event_id.0@);
    }
    assert forall|k: int| #[trigger] last_before(part, k, at) == last_before(items, k, at) by {
        if last_before(part, k, at) {
            assert forall|m: int| k < m < at implies !same_place(#[trigger] items[m], items[at]) by {
                assert(part[m] == items[m]);
            }
        }
        if last_before(items, k, at) {
            assert forall|m: int| k < m < at implies !same_place(#[trigger] part[m], part[at]) by {
                assert(part[m] == items[m]);
            }
        }
    }
    if leaves_gap(part, at) {
        let k = choose|k: int| #[trigger]
            last_before(part, k, at) && !continues(part[k].event, part[at].event);
        assert(last_before(items, k, at));
    }
    if leaves_gap(items, at) {
        let k = choose|k: int| #[trigger]
            last_before(items, k, at) && !continues(items[k].event, items[at].event);
        assert(last_before(part, k, at));
    }
}

fn check_part(items: &Vec<StreamEvent>, from: usize, to: usize) -> (r: Result<(), RebuildError>)
    requires
        from <= to <= items@.len(),
    ensures
        checked(r, items@.subrange(from as int, to as int)),
{
    let ghost part = items@.subrange(from as int, to as int);
    let mut i: usize = from;
    while i < to
        invariant
            from <= i <= to <= items@.len(),
            part == items@.subrange(from as int, to as int),
            forall|k: int| 0 <= k < i - from ==> #[trigger] stream_complaint(part, k) is None,
        decreases to - i,
    {
        proof {
            assert(part.take(i + 1 - from) =~= items@.subrange(from as int, i + 1));
            lemma_prefix_complaint(part, i + 1 - from, i - from);
        }
        match check_at(items, from, i) {
            Ok(()) => {},
            Err(failure) => {
                assert(first_unsound(part, i - from));
                return Err(failure);
            },
        }
        i = i + 1;
    }
    Ok(())
}

/// Checks a stream.
pub fn validate_rebuild_stream(items: &Vec<StreamEvent>) -> (r: Result<(), RebuildError>)
    ensures
        checked(r, items@),
{
    assert(items@.subrange(0, items@.len() as int) =~= items@);
    check_part(items, 0, items.len())
}

// ---------------------------------------------------------------------------
// Projections.
// ---------------------------------------------------------------------------
/// A resource of a tenant.
#[verifier::ext_equal]
pub struct Place {
    /// The tenant.
    pub tenant: Seq<char>,
    /// The resource.
    pub resource: Seq<char>,
}

/// The resource that an event concerns.
pub open spec fn place_of(item: StreamEvent) -> Place {
    Place { tenant: item.event.tenant_id.0@, resource: item.event.resource_id.0@ }
}

/// The resource of a projection.
pub open spec fn place_in(projection: StateProjection) -> Place {
    Place { tenant: projection.tenant_id.0@, resource: projection.resource_id.0@ }
}

/// The order of resources: by tenant, then by resource.
pub open spec fn place_lt(a: Place, b: Place) -> bool {
    text_lt(a.tenant, b.tenant) || (a.tenant == b.tenant && text_lt(a.resource, b.resource))
}

/// The last event of each resource of a stream.
pub open spec fn latest(items: Seq<StreamEvent>) -> Map<Place, StreamEvent>
    decreases items.len(),
{
    if items.len() == 0 {
        Map::empty()
    } else {
        latest(items.drop_last()).insert(place_of(items.last()), items.last())
    }
}

/// Whether a projection is the state after an event.
pub open spec fn projects(projection: StateProjection, item: StreamEvent) -> bool {
    &&& projection.tenant_id == item.event.tenant_id
    &&& projection.resource_id == item.event.resource_id
    &&& projection.state_type == item.event.after.state.state_type
    &&& projection.version == item.event.after.version
    &&& projection.last_event_id == item.event.event_id
    &&& projection.last_commit_id == item.commit_id
    &&& projection.state_hash == item.event.after.state_hash
    &&& projection.state@ == item.event.after.state@
}

/// Whether projections are in strictly increasing order of their resources.
pub open spec fn in_place_order(list: Seq<StateProjection>) -> bool {
    forall|i: int, j: int|
        0 <= i < j < list.len() ==> place_lt(
            place_in(#[trigger] list[i]),
            place_in(#[trigger] list[j]),
        )
}

/// Whether some projection is of a resource.
pub open spec fn covers(list: Seq<StateProjection>, place: Place) -> bool {
    exists|i: int| 0 <= i < list.len() && place_in(#[trigger] list[i]) == place
}

/// Whether projections are those of the last events: one for each resource,
/// in order.
pub open spec fn lists_latest(list: Seq<StateProjection>, last: Map<Place, StreamEvent>) -> bool {
    &&& in_place_order(list)
    &&& forall|place: Place| #[trigger] covers(list, place) <==> last.contains_key(place)
    &&& forall|i: int|
        0 <= i < list.len() ==> projects(#[trigger] list[i], last[place_in(list[i])])
}

proof fn lemma_place_lt_irreflexive(a: Place)
    ensures
        !place_lt(a, a),
{
    lemma_text_lt_irreflexive(a.tenant);
    lemma_text_lt_irreflexive(a.resource);
}

proof fn lemma_place_lt_transitive(a: Place, b: Place, c: Place)
    requires
        place_lt(a, b),
        place_lt(b, c),
    ensures
        place_lt(a, c),
{
    if text_lt(a.tenant, b.tenant) && text_lt(b.tenant, c.tenant) {
        lemma_text_lt_transitive(a.tenant, b.tenant, c.tenant);
    } else if a.tenant == b.tenant && b.tenant == c.tenant {
        lemma_text_lt_transitive(a.resource, b.resource, c.resource);
    }
}

proof fn lemma_place_lt_total(a: Place, b: Place)
    ensures
        place_lt(a, b) || a == b || place_lt(b, a),
{
    lemma_text_lt_total(a.tenant, b.tenant);
    lemma_text_lt_total(a.resource, b.resource);
}

fn projection_of(item: &StreamEvent) -> (r: StateProjection)
    ensures
        projects(r, *item),
{
    StateProjection {
        tenant_id: item.event.tenant_id.clone(),
        resource_id: item.event.resource_id.clone(),
        state_type: item.event.after.state.state_type,
        version: item.event.after.version,
        last_event_id: item.event.event_id.clone(),
        last_commit_id: item.commit_id.clone(),
        state_hash: item.event.after.state_hash,
        state: item.event.after.state.clone(),
    }
}

fn before_place(projection: &StateProjection, item: &StreamEvent) -> (r: bool)
    ensures
        r == place_lt(place_in(*projection), place_of(*item)),
{
    if text_less(projection.tenant_id.as_str(), item.event.tenant_id.as_str()) {
        return true;
    }
    projection.tenant_id.same(&item.event.tenant_id) && text_less(
        projection.resource_id.as_str(),
        item.event.resource_id.as_str(),
    )
}

/// Puts the state after an event in the place of an earlier one.
fn put_latest(
    list: &mut Vec<StateProjection>,
    item: &StreamEvent,
    Ghost(last): Ghost<Map<Place, StreamEvent>>,
)
    requires
        lists_latest(old(list)@, last),
    ensures
        lists_latest(final(list)@, last.insert(place_of(*item), *item)),
{
    let ghost before = list@;
    let ghost place = place_of(*item);
    let mut i: usize = 0;
    while i < list.len() && before_place(&list[i], item)
        invariant
            i <= list@.len(),
            list@ == before,
            place == place_of(*item),
            forall|k: int| 0 <= k < i ==> place_lt(place_in(#[trigger] before[k]), place),
        decreases list@.len() - i,
    {
        i = i + 1;
    }
    let projection = projection_of(item);
    if i < list.len() && list[i].tenant_id.same(&item.event.tenant_id)
        && list[i].resource_id.same(&item.event.resource_id) {
        list.set(i, projection);
        proof {
            lemma_replaced(before, i as int, projection, last, *item);
            assert(list@ =~= before.update(i as int, projection));
        }
    } else {
        proof {
            if i < before.len() {
                lemma_place_lt_total(place_in(before[i as int]), place);
            }
        }
        list.insert(i, projection);
        proof {
            lemma_added(before, i as int, projection, last, *item);
            assert(list@ =~= before.insert(i as int, projection));
        }
    }
}

proof fn lemma_replaced(
    list: Seq<StateProjection>,
    at: int,
    projection: StateProjection,
    last: Map<Place, StreamEvent>,
    item: StreamEvent,
)
    requires
        lists_latest(list, last),
        0 <= at < list.len(),
        place_in(list[at]) == place_of(item),
        projects(projection, item),
    ensures
        lists_latest(list.update(at, projection), last.insert(place_of(item), item)),
{
    let after = list.update(at, projection);
    let next = last.insert(place_of(item), item);
    let place = place_of(item);
    assert forall|k: int| 0 <= k < after.len() implies place_in(#[trigger] after[k]) == place_in(
        list[k],
    ) by {
    }
    assert forall|i: int, j: int| 0 <= i < j < after.len() implies place_lt(
        place_in(#[trigger] after[i]),
        place_in(#[trigger] after[j]),
    ) by {
        assert(place_lt(place_in(list[i]), place_in(list[j])));
    }
    assert forall|p: Place| #[trigger] covers(after, p) <==> next.contains_key(p) by {
        if covers(after, p) {
            let k = choose|k: int| 0 <= k < after.len() && place_in(#[trigger] after[k]) == p;
            assert(place_in(list[k]) == p);
            assert(covers(list, p));
        }
        if next.contains_key(p) {
            if p == place {
                assert(place_in(after[at]) == p);
            } else {
                assert(covers(list, p));
                let k = choose|k: int| 0 <= k < list.len() && place_in(#[trigger] list[k]) == p;
                assert(place_in(after[k]) == p);
            }
        }
    }
    assert forall|k: int| 0 <= k < after.len() implies projects(
        #[trigger] after[k],
        next[place_in(after[k])],
    ) by {
        if k != at {
            assert(projects(list[k], last[place_in(list[k])]));
            lemma_place_lt_irreflexive(place);
            if k < at {
                assert(place_lt(place_in(list[k]), place_in(list[at])));
            } else {
                assert(place_lt(place_in(list[at]), place_in(list[k])));
            }
        }
    }
}

proof fn lemma_added(
    list: Seq<StateProjection>,
    at: int,
    projection: StateProjection,
    last: Map<Place, StreamEvent>,
    item: StreamEvent,
)
    requires
        lists_latest(list, last),
        0 <= at <= list.len(),
        forall|k: int| 0 <= k < at ==> place_lt(place_in(#[trigger] list[k]), place_of(item)),
        at < list.len() ==> place_lt(place_of(item), place_in(list[at])),
        projects(projection, item),
    ensures
        lists_latest(list.insert(at, projection), last.insert(place_of(item), item)),
{
    let after = list.insert(at, projection);
    let next = last.insert(place_of(item), item);
    let place = place_of(item);
    assert forall|i: int, j: int| 0 <= i < j < after.len() implies place_lt(
        place_in(#[trigger] after[i]),
        place_in(#[trigger] after[j]),
    ) by {
        if i < at && j == at {
            assert(after[i] == list[i]);
        } else if i == at {
            assert(after[j] == list[j - 1]);
            if j - 1 > at {
                assert(place_lt(place_in(list[at]), place_in(list[j - 1])));
                lemma_place_lt_transitive(place, place_in(list[at]), place_in(list[j - 1]));
            }
        } else if i < at && j > at {
            assert(after[i] == list[i] && after[j] == list[j - 1]);
        } else if i > at {
            assert(after[i] == list[i - 1] && after[j] == list[j - 1]);
        } else {
            assert(after[i] == list[i] && after[j] == list[j]);
        }
    }
    assert forall|p: Place| #[trigger] covers(after, p) <==> next.contains_key(p) by {
        if covers(after, p) {
            let k = choose|k: int| 0 <= k < after.len() && place_in(#[trigger] after[k]) == p;
            if k < at {
                assert(place_in(list[k]) == p);
                assert(covers(list, p));
            } else if k > at {
                assert(place_in(list[k - 1]) == p);
                assert(covers(list, p));
            }
        }
        if next.contains_key(p) {
            if p == place {
                assert(place_in(after[at]) == p);
            } else {
                assert(covers(list, p));
                let k = choose|k: int| 0 <= k < list.len() && place_in(#[trigger] list[k]) == p;
                if k < at {
                    assert(place_in(after[k]) == p);
                } else {
                    assert(place_in(after[k + 1]) == p);
                }
            }
        }
    }
    assert forall|k: int| 0 <= k < after.len() implies projects(
        #[trigger] after[k],
        next[place_in(after[k])],
    ) by {
        lemma_place_lt_irreflexive(place);
        if k < at {
            assert(projects(list[k], last[place_in(list[k])]));
        } else if k > at {
            assert(projects(list[k - 1], last[place_in(list[k - 1])]));
            if k - 1 > at {
                assert(place_lt(place_in(list[at]), place_in(list[k - 1])));
                lemma_place_lt_transitive(place, place_in(list[at]), place_in(list[k - 1]));
            }
        }
    }
}

/// What comes of rebuilding the projections of a stream.
pub open spec fn rebuilt(
    r: Result<Vec<StateProjection>, RebuildError>,
    items: Seq<StreamEvent>,
) -> bool {
    checked(r, items) && (r matches Ok(list) ==> lists_latest(list@, latest(items)))
}

fn rebuild_part(items: &Vec<StreamEvent>, from: usize, to: usize) -> (r: Result<
    Vec<StateProjection>,
    RebuildError,
>)
    requires
        from <= to <= items@.len(),
    ensures
        rebuilt(r, items@.subrange(from as int, to as int)),
{
    let ghost part = items@.subrange(from as int, to as int);
    match check_part(items, from, to) {
        Ok(()) => {},
        Err(failure) => return Err(failure),
    }
    let mut list: Vec<StateProjection> = Vec::new();
    let mut i: usize = from;
    assert(part.take(0) =~= Seq::empty());
    while i < to
        invariant
            from <= i <= to <= items@.len(),
            part == items@.subrange(from as int, to as int),
            lists_latest(list@, latest(part.take(i - from))),
        decreases to - i,
    {
        proof {
            assert(part.take(i + 1 - from).drop_last() =~= part.take(i - from));
            assert(part.take(i + 1 - from).last() == items@[i as int]);
        }
        put_latest(&mut list, &items[i], Ghost(latest(part.take(i - from))));
        i = i + 1;
    }
    assert(part.take(to - from) =~= part);
    Ok(list)
}

/// Rebuilds the projections of a stream: the state after the last event of
/// each resource, in the order of the resources.
pub fn rebuild_projections(items: &Vec<StreamEvent>) -> (r: Result<
    Vec<StateProjection>,
    RebuildError,
>)
    ensures
        rebuilt(r, items@),
{
    assert(items@.subrange(0, items@.len() as int) =~= items@);
    rebuild_part(items, 0, items.len())
}

/// Where a chunk ends.
pub open spec fn chunk_end(total: nat, start: nat, size: nat) -> nat {
    if start + size < total {
        start + size
    } else {
        total
    }
}

/// Rebuilds the projections of one chunk of a stream, and says where the
/// chunk ends.
pub fn rebuild_projections_chunk(
    items: &Vec<StreamEvent>,
    start_event: usize,
    max_events: usize,
) -> (r: Result<(Vec<StateProjection>, usize), RebuildError>)
    ensures
        if max_events == 0 || start_event > items@.len() {
            unsound(r, "invalid projection rebuild checkpoint"@)
        } else {
            let end = chunk_end(items@.len(), start_event as nat, max_events as nat);
            let part = items@.subrange(start_event as int, end as int);
            checked(r, part) && (r matches Ok(chunk) ==> lists_latest(chunk.0@, latest(part))
                && chunk.1 == end)
        },
{
    if max_events == 0 || start_event > items.len() {
        return Err(RebuildError::Invariant("invalid projection rebuild checkpoint".to_owned()));
    }
    let end: usize = if max_events < items.len() - start_event {
        start_event + max_events
    } else {
        items.len()
    };
    match rebuild_part(items, start_event, end) {
        Ok(list) => Ok((list, end)),
        Err(failure) => Err(failure),
    }
}

// ---------------------------------------------------------------------------
// Laws.
// ---------------------------------------------------------------------------
/// A part of a sound stream is sound.
pub proof fn law_parts_of_sound_streams_are_sound(items: Seq<StreamEvent>, from: int, to: int)
    requires
        stream_sound(items),
        0 <= from <= to <= items.len(),
    ensures
        stream_sound(items.subrange(from, to)),
{
    let part = items.subrange(from, to);
    assert forall|k: int| 0 <= k < part.len() implies #[trigger]
        stream_complaint(part, k) is None by {
        assert(stream_complaint(items, from + k) is None);
        assert(part[k] == items[from + k]);
        if repeats(part, k) {
            let j = choose|j: int|
                0 <= j < k && (#[trigger] part[j]).event.event_id.0@ == part[k].event.event_id.0@;
            assert(items[from + j].event.event_id.0@ == items[from + k].event.event_id.0@);
            assert(repeats(items, from + k));
        }
        if leaves_gap(part, k) {
            let j = choose|j: int| #[trigger]
                last_before(part, j, k) && !continues(part[j].event, part[k].event);
            assert(last_before(items, from + j, from + k)) by {
                assert forall|m: int| from + j < m < from + k implies !same_place(
                    #[trigger] items[m],
                    items[from + k],
                ) by {
                    assert(part[m - from] == items[m]);
                }
            }
            assert(leaves_gap(items, from + k));
        }
    }
}

/// In a sound stream every event of a resource has a higher version than the
/// events of that resource before it; no two of them have the same.
pub proof fn law_versions_rise(items: Seq<StreamEvent>, earlier: int, later: int)
    requires
        stream_sound(items),
        0 <= earlier < later < items.len(),
        same_place(items[earlier], items[later]),
    ensures
        items[earlier].event.after.version < items[later].event.after.version,
    decreases later,
{
    let between = lemma_last_before(items, earlier, later);
    assert(stream_complaint(items, later) is None);
    if !continues(items[between].event, items[later].event) {
        assert(leaves_gap(items, later));
    }
    if between > earlier {
        law_versions_rise(items, earlier, between);
    }
}

proof fn lemma_last_before(items: Seq<StreamEvent>, earlier: int, later: int) -> (at: int)
    requires
        0 <= earlier < later < items.len(),
        same_place(items[earlier], items[later]),
    ensures
        earlier <= at < later,
        last_before(items, at, later),
    decreases later - earlier,
{
    if exists|k: int| earlier < k < later && same_place(#[trigger] items[k], items[later]) {
        let k = choose|k: int| earlier < k < later && same_place(#[trigger] items[k], items[later]);
        lemma_last_before(items, k, later)
    } else {
        earlier
    }
}

/// The last event of a resource is one of the stream, and none of that
/// resource comes after it.
pub proof fn lemma_latest(items: Seq<StreamEvent>, place: Place) -> (at: int)
    requires
        latest(items).contains_key(place),
    ensures
        0 <= at < items.len(),
        items[at] == latest(items)[place],
        place_of(items[at]) == place,
        forall|k: int| at < k < items.len() ==> place_of(#[trigger] items[k]) != place,
    decreases items.len(),
{
    if place_of(items.last()) == place {
        items.len() - 1
    } else {
        let at = lemma_latest(items.drop_last(), place);
        assert forall|k: int| at < k < items.len() implies place_of(#[trigger] items[k])
            != place by {
            if k < items.len() - 1 {
                assert(items.drop_last()[k] == items[k]);
            }
        }
        at
    }
}

/// The projection of a resource has the highest version that the stream has
/// of it.
pub proof fn law_projections_are_of_the_highest_version(items: Seq<StreamEvent>, k: int)
    requires
        stream_sound(items),
        0 <= k < items.len(),
    ensures
        latest(items).contains_key(place_of(items[k])),
        items[k].event.after.version <= latest(items)[place_of(items[k])].event.after.version,
{
    let place = place_of(items[k]);
    lemma_latest_present(items, k);
    let at = lemma_latest(items, place);
    if k < at {
        law_versions_rise(items, k, at);
    }
}

pub proof fn lemma_latest_present(items: Seq<StreamEvent>, k: int)
    requires
        0 <= k < items.len(),
    ensures
        latest(items).contains_key(place_of(items[k])),
    decreases items.len(),
{
    if k < items.len() - 1 {
        lemma_latest_present(items.drop_last(), k);
        assert(items.drop_last()[k] == items[k]);
    }
}

/// Rebuilding a stream in two parts, with the projections of the second
/// written over those of the first, is the same as rebuilding it at once.
pub proof fn law_chunks_compose(first: Seq<StreamEvent>, second: Seq<StreamEvent>)
    ensures
        latest(first + second) == latest(first).union_prefer_right(latest(second)),
    decreases second.len(),
{
    if second.len() == 0 {
        assert(first + second =~= first);
        assert(latest(first).union_prefer_right(latest(second)) =~= latest(first));
    } else {
        law_chunks_compose(first, second.drop_last());
        assert((first + second).drop_last() =~= first + second.drop_last());
        assert(latest(first + second) =~= latest(first).union_prefer_right(latest(second)));
    }
}

// ---------------------------------------------------------------------------
// The resumable rebuild.
// ---------------------------------------------------------------------------
/// Where a resumable rebuild stands: paused for outside work, or done.
pub enum RebuildStep<'a> {
    /// Needs the stored checkpoint.
    LoadCheckpoint(AwaitCheckpoint<'a>),
    /// Needs a projection written.
    WriteProjection(AwaitWrite<'a>),
    /// Needs the checkpoint stored.
    SaveCheckpoint(AwaitSave<'a>),
    /// Finished: the number of projections written, or why there are no more.
    Done(Result<u64, RebuildError>),
}

/// Whether a step is the work on the chunk that starts at an event: its first
/// projection is to be written, or there is nothing left.
pub open spec fn works_on(
    r: RebuildStep,
    items: Seq<StreamEvent>,
    chunk_size: nat,
    offset: nat,
    written: u64,
) -> bool {
    if offset >= items.len() {
        r matches RebuildStep::Done(Ok(n)) && n == written
    } else {
        let end = chunk_end(items.len(), offset, chunk_size);
        r matches RebuildStep::WriteProjection(next) && next.items() == items && next.chunk_size()
            == chunk_size && next.end() == end && next.at() == 0 && next.written() == written
            && lists_latest(next.list(), latest(items.subrange(offset as int, end as int)))
    }
}

fn start_chunk<'a>(
    items: &'a Vec<StreamEvent>,
    chunk_size: usize,
    offset: usize,
    written: u64,
) -> (r: RebuildStep<'a>)
    requires
        stream_sound(items@),
        chunk_size > 0,
    ensures
        works_on(r, items@, chunk_size as nat, offset as nat, written),
{
    if offset >= items.len() {
        return RebuildStep::Done(Ok(written));
    }
    let ghost end = chunk_end(items@.len(), offset as nat, chunk_size as nat);
    proof {
        law_parts_of_sound_streams_are_sound(items@, offset as int, end as int);
    }
    match rebuild_projections_chunk(items, offset, chunk_size) {
        Ok((list, end)) => {
            proof {
                let part = items@.subrange(offset as int, end as int);
                lemma_latest_present(part, 0);
                assert(covers(list@, place_of(part[0])));
            }
            RebuildStep::WriteProjection(AwaitWrite { items, chunk_size, end, list, at: 0, written })
        },
        Err(failure) => RebuildStep::Done(Err(failure)),
    }
}

/// Begins a resumable rebuild under a key. The whole stream is checked first,
/// so that no fault can hide between two chunks.
pub fn rebuild_projections_resumable<'a>(
    items: &'a Vec<StreamEvent>,
    key: &str,
    chunk_size: usize,
) -> (r: RebuildStep<'a>)
    ensures
        if key@.len() == 0 || chunk_size == 0 {
            r matches RebuildStep::Done(done) && unsound(
                done,
                "rebuild key and chunk size must be non-empty"@,
            )
        } else if !stream_sound(items@) {
            r matches RebuildStep::Done(done) && done is Err && checked(done, items@)
        } else {
            r matches RebuildStep::LoadCheckpoint(next) && next.items() == items@
                && next.chunk_size() == chunk_size
        },
{
    if key.is_empty() || chunk_size == 0 {
        return RebuildStep::Done(
            Err(
                RebuildError::Invariant("rebuild key and chunk size must be non-empty".to_owned()),
            ),
        );
    }
    match validate_rebuild_stream(items) {
        Ok(()) => RebuildStep::LoadCheckpoint(AwaitCheckpoint { items, chunk_size }),
        Err(failure) => RebuildStep::Done(Err(failure)),
    }
}

/// Waits for the stored checkpoint.
pub struct AwaitCheckpoint<'a> {
    items: &'a Vec<StreamEvent>,
    chunk_size: usize,
}

impl<'a> AwaitCheckpoint<'a> {
    #[verifier::type_invariant]
    spec fn consistent(self) -> bool {
        stream_sound(self.items@) && self.chunk_size > 0
    }

    /// The stream.
    pub closed spec fn items(self) -> Seq<StreamEvent> {
        self.items@
    }

    /// The size of a chunk.
    pub closed spec fn chunk_size(self) -> nat {
        self.chunk_size as nat
    }

    /// Continues with the stored checkpoint; without one the rebuild starts
    /// at the first event.
    pub fn resume(self, loaded: Result<Option<usize>, String>) -> (r: RebuildStep<'a>)
        ensures
            match loaded {
                Err(failure) => r == RebuildStep::<'a>::Done(Err(RebuildError::Sink(failure))),
                Ok(stored) => {
                    let offset = match stored {
                        Some(n) => n as nat,
                        None => 0,
                    };
                    if offset > self.items().len() {
                        r matches RebuildStep::Done(done) && unsound(
                            done,
                            "stored rebuild checkpoint exceeds event stream"@,
                        )
                    } else {
                        works_on(r, self.items(), self.chunk_size(), offset, 0)
                    }
                },
            },
    {
        proof {
            use_type_invariant(&self);
        }
        let offset: usize = match loaded {
            Err(failure) => return RebuildStep::Done(Err(RebuildError::Sink(failure))),
            Ok(Some(stored)) => stored,
            Ok(None) => 0,
        };
        if offset > self.items.len() {
            return RebuildStep::Done(
                Err(
                    RebuildError::Invariant(
                        "stored rebuild checkpoint exceeds event stream".to_owned(),
                    ),
                ),
            );
        }
        start_chunk(self.items, self.chunk_size, offset, 0)
    }
}

/// Waits for a projection to be written.
pub struct AwaitWrite<'a> {
    items: &'a Vec<StreamEvent>,
    chunk_size: usize,
    end: usize,
    list: Vec<StateProjection>,
    at: usize,
    written: u64,
}

impl<'a> AwaitWrite<'a> {
    #[verifier::type_invariant]
    spec fn consistent(self) -> bool {
        stream_sound(self.items@) && self.chunk_size > 0 && self.at < self.list@.len()
    }

    /// The stream.
    pub closed spec fn items(self) -> Seq<StreamEvent> {
        self.items@
    }

    /// The size of a chunk.
    pub closed spec fn chunk_size(self) -> nat {
        self.chunk_size as nat
    }

    /// Where the chunk ends.
    pub closed spec fn end(self) -> nat {
        self.end as nat
    }

    /// The projections of the chunk.
    pub closed spec fn list(self) -> Seq<StateProjection> {
        self.list@
    }

    /// The position of the projection to write.
    pub closed spec fn at(self) -> nat {
        self.at as nat
    }

    /// The number of projections that earlier chunks wrote.
    pub closed spec fn written(self) -> u64 {
        self.written
    }

    /// The projection to write.
    pub fn projection(&self) -> (r: &StateProjection)
        ensures
            self.at() < self.list().len(),
            *r == self.list()[self.at() as int],
    {
        proof {
            use_type_invariant(self);
        }
        &self.list[self.at]
    }

    /// Continues when the projection has been written. The checkpoint is
    /// stored only after the last projection of the chunk.
    pub fn resume(self, stored: Result<(), String>) -> (r: RebuildStep<'a>)
        ensures
            match stored {
                Err(failure) => r == RebuildStep::<'a>::Done(Err(RebuildError::Sink(failure))),
                Ok(_) => if self.at() + 1 < self.list().len() {
                    r matches RebuildStep::WriteProjection(next) && next.items() == self.items()
                        && next.chunk_size() == self.chunk_size() && next.end() == self.end()
                        && next.list() == self.list() && next.at() == self.at() + 1
                        && next.written() == self.written()
                } else {
                    r matches RebuildStep::SaveCheckpoint(next) && next.items() == self.items()
                        && next.chunk_size() == self.chunk_size() && next.checkpoint()
                        == (RebuildCheckpoint {
                        next_event: self.end() as usize,
                        projections_written: self.list().len() as u64,
                    }) && next.written() == self.written()
                },
            },
    {
        proof {
            use_type_invariant(&self);
        }
        let AwaitWrite { items, chunk_size, end, list, at, written } = self;
        match stored {
            Err(failure) => RebuildStep::Done(Err(RebuildError::Sink(failure))),
            Ok(_) => if at < list.len() - 1 {
                RebuildStep::WriteProjection(
                    AwaitWrite { items, chunk_size, end, list, at: at + 1, written },
                )
            } else {
                let checkpoint = RebuildCheckpoint {
                    next_event: end,
                    projections_written: list.len() as u64,
                };
                RebuildStep::SaveCheckpoint(AwaitSave { items, chunk_size, checkpoint, written })
            },
        }
    }
}

/// Waits for the checkpoint to be stored.
pub struct AwaitSave<'a> {
    items: &'a Vec<StreamEvent>,
    chunk_size: usize,
    checkpoint: RebuildCheckpoint,
    written: u64,
}

impl<'a> AwaitSave<'a> {
    #[verifier::type_invariant]
    spec fn consistent(self) -> bool {
        stream_sound(self.items@) && self.chunk_size > 0
    }

    /// The stream.
    pub closed spec fn items(self) -> Seq<StreamEvent> {
        self.items@
    }

    /// The size of a chunk.
    pub closed spec fn chunk_size(self) -> nat {
        self.chunk_size as nat
    }

    /// The checkpoint to store.
    pub closed spec fn checkpoint(self) -> RebuildCheckpoint {
        self.checkpoint
    }

    /// The number of projections that earlier chunks wrote.
    pub closed spec fn written(self) -> u64 {
        self.written
    }

    /// The offset to store.
    pub fn next_event(&self) -> (r: usize)
        ensures
            r == self.checkpoint().next_event,
    {
        self.checkpoint.next_event
    }

    /// Continues with the next chunk when the checkpoint has been stored.
    pub fn resume(self, saved: Result<(), String>) -> (r: RebuildStep<'a>)
        ensures
            match saved {
                Err(failure) => r == RebuildStep::<'a>::Done(Err(RebuildError::Sink(failure))),
                Ok(_) => works_on(
                    r,
                    self.items(),
                    self.chunk_size(),
                    self.checkpoint().next_event as nat,
                    counted(self.written(), self.checkpoint().projections_written),
                ),
            },
    {
        proof {
            use_type_invariant(&self);
        }
        match saved {
            Err(failure) => RebuildStep::Done(Err(RebuildError::Sink(failure))),
            Ok(_) => start_chunk(
                self.items,
                self.chunk_size,
                self.checkpoint.next_event,
                self.written.saturating_add(self.checkpoint.projections_written),
            ),
        }
    }
}

/// A sum, up to the largest number.
pub open spec fn counted(a: u64, b: u64) -> u64 {
    if a + b > u64::MAX {
        u64::MAX
    } else {
        (a + b) as u64
    }
}

} // verus!
