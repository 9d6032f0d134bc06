//! What a rebuild promises of a stream as a whole.
use vstd::prelude::*;

use crate::domain::state::StateProjection;
use crate::index::rebuild::{
    continues, covers, last_before, latest, leaves_gap, lemma_latest, lemma_latest_present,
    lemma_prefix_complaint, place_in, place_of, rebuilt, repeats, same_place, stream_complaint,
    stream_sound, RebuildError, StreamEvent,
};
use crate::text::text_lt;

verus! {

/// Whether an event is in order by itself: of the supported schema, pinned by a
/// commit with an id in form, one version further on, with states that their digests match
/// and that are of one type, on a named resource of a named tenant.
pub open spec fn intact(item: StreamEvent) -> bool {
    let event = item.event;
    &&& event.schema@ == "statechronicle.event.v0"@
    &&& 4 < item.commit_id.0@.len() <= 256
    &&& item.commit_id.0@.take(4) == "cmt_"@
    &&& event.after.version == event.before.version + 1
    &&& item.before_digest is Ok
    &&& item.before_digest->Ok_0.bytes@ == event.before.state_hash.bytes@
    &&& item.after_digest is Ok
    &&& item.after_digest->Ok_0.bytes@ == event.after.state_hash.bytes@
    &&& event.before.state.state_type == event.after.state.state_type
    &&& event.tenant_id.0@.len() > 0
    &&& event.resource_id.0@.len() > 0
}

/// Whether every event has an id of its own.
pub open spec fn distinct_ids(items: Seq<StreamEvent>) -> bool {
    forall|i: int, j: int|
        0 <= i < j < items.len() ==> (#[trigger] items[i]).event.event_id.0@ != (
        #[trigger] items[j]).event.event_id.0@
}

/// Whether two positions hold events of one tenant's resource, with no event of
/// that resource between them.
pub open spec fn neighbours(items: Seq<StreamEvent>, i: int, j: int) -> bool {
    &&& 0 <= i < j < items.len()
    &&& items[i].event.tenant_id.0@ == items[j].event.tenant_id.0@
    &&& items[i].event.resource_id.0@ == items[j].event.resource_id.0@
    &&& forall|k: int|
        i < k < j ==> (#[trigger] items[k]).event.tenant_id.0@ != items[j].event.tenant_id.0@
            || items[k].event.resource_id.0@ != items[j].event.resource_id.0@
}

/// The part of a stream that belongs to a tenant.
pub open spec fn of_tenant(items: Seq<StreamEvent>, tenant: Seq<char>) -> Seq<StreamEvent>
    decreases items.len(),
{
    if items.len() == 0 {
        Seq::empty()
    } else if items.last().event.tenant_id.0@ == tenant {
        of_tenant(items.drop_last(), tenant).push(items.last())
    } else {
        of_tenant(items.drop_last(), tenant)
    }
}

/// A stream is rebuilt only if all its events are intact, no event occurs
/// twice, and each resource's events form a chain: each one starts at the
/// version and the state that the one before it led to.
pub proof fn law_rebuilt_streams_are_chains(
    r: Result<Vec<StateProjection>, RebuildError>,
    items: Seq<StreamEvent>,
)
    requires
        rebuilt(r, items),
        r is Ok,
    ensures
        forall|k: int| 0 <= k < items.len() ==> intact(#[trigger] items[k]),
        distinct_ids(items),
        forall|i: int, j: int| #[trigger]
            neighbours(items, i, j) ==> items[j].event.before.version
                == items[i].event.after.version && items[j].event.before.state_hash.bytes@
                == items[i].event.after.state_hash.bytes@,
{
    reveal_strlit("cmt_");
    assert(stream_sound(items));
    assert forall|k: int| 0 <= k < items.len() implies intact(#[trigger] items[k]) by {
        assert(stream_complaint(items, k) is None);
        assert(items[k].commit_id.0@.take(4) =~= "cmt_"@);
    }
    assert forall|i: int, j: int| 0 <= i < j < items.len() implies (
    #[trigger] items[i]).event.event_id.0@ != (#[trigger] items[j]).event.event_id.0@ by {
        assert(stream_complaint(items, j) is None);
        if items[i].event.event_id.0@ == items[j].event.event_id.0@ {
            assert(repeats(items, j));
        }
    }
    assert forall|i: int, j: int| #[trigger] neighbours(items, i, j) implies continues(
        items[i].event,
        items[j].event,
    ) by {
        assert(stream_complaint(items, j) is None);
        assert(last_before(items, i, j));
        if !continues(items[i].event, items[j].event) {
            assert(leaves_gap(items, j));
        }
    }
}

/// Conversely, a stream of intact events with distinct ids whose resources'
/// events form chains is rebuilt.
pub proof fn law_chains_are_rebuilt(
    r: Result<Vec<StateProjection>, RebuildError>,
    items: Seq<StreamEvent>,
)
    requires
        rebuilt(r, items),
        forall|k: int| 0 <= k < items.len() ==> intact(#[trigger] items[k]),
        distinct_ids(items),
        forall|i: int, j: int| #[trigger]
            neighbours(items, i, j) ==> items[j].event.before.version
                == items[i].event.after.version && items[j].event.before.state_hash.bytes@
                == items[i].event.after.state_hash.bytes@,
    ensures
        r is Ok,
{
    reveal_strlit("cmt_");
    assert forall|k: int| 0 <= k < items.len() implies #[trigger] stream_complaint(
        items,
        k,
    ) is None by {
        assert(intact(items[k]));
        if repeats(items, k) {
            let j = choose|j: int|
                0 <= j < k && (#[trigger] items[j]).event.event_id.0@
                    == items[k].event.event_id.0@;
            assert(items[j].event.event_id.0@ != items[k].event.event_id.0@);
        }
        if leaves_gap(items, k) {
            let j = choose|j: int| #[trigger]
                last_before(items, j, k) && !continues(items[j].event, items[k].event);
            assert(neighbours(items, j, k));
        }
    }
}

/// Each projection of a rebuilt stream is what the last event of its tenant's
/// resource left behind, under that event's id and commit.
pub proof fn law_projections_are_what_the_last_event_left(
    r: Result<Vec<StateProjection>, RebuildError>,
    items: Seq<StreamEvent>,
    i: int,
) -> (at: int)
    requires
        rebuilt(r, items),
        r is Ok,
        0 <= i < r->Ok_0@.len(),
    ensures
        ({
            let projection = r->Ok_0@[i];
            let event = items[at].event;
            &&& 0 <= at < items.len()
            &&& projection.tenant_id.0@ == event.tenant_id.0@
            &&& projection.resource_id.0@ == event.resource_id.0@
            &&& projection.version == event.after.version
            &&& projection.state_type == event.after.state.state_type
            &&& projection.state_hash.bytes@ == event.after.state_hash.bytes@
            &&& projection.state.state_type == event.after.state.state_type
            &&& projection.state.payload@ == event.after.state.payload@
            &&& projection.last_event_id.0@ == event.event_id.0@
            &&& projection.last_commit_id.0@ == items[at].commit_id.0@
            &&& forall|k: int|
                at < k < items.len() ==> (#[trigger] items[k]).event.tenant_id.0@
                    != projection.tenant_id.0@ || items[k].event.resource_id.0@
                    != projection.resource_id.0@
        }),
{
    let list = r->Ok_0@;
    let place = place_in(list[i]);
    assert(covers(list, place));
    let at = lemma_latest(items, place);
    assert forall|k: int| at < k < items.len() implies (#[trigger] items[k]).event.tenant_id.0@
        != list[i].tenant_id.0@ || items[k].event.resource_id.0@ != list[i].resource_id.0@ by {
        assert(place_of(items[k]) != place);
    }
    at
}

/// Every resource that a rebuilt stream has events on gets one projection, and
/// only one; they come in the order of their tenants, then of their resources.
pub proof fn law_every_resource_is_projected_once(
    r: Result<Vec<StateProjection>, RebuildError>,
    items: Seq<StreamEvent>,
    k: int,
)
    requires
        rebuilt(r, items),
        r is Ok,
        0 <= k < items.len(),
    ensures
        exists|i: int|
            0 <= i < r->Ok_0@.len() && (#[trigger] r->Ok_0@[i]).tenant_id.0@
                == items[k].event.tenant_id.0@ && r->Ok_0@[i].resource_id.0@
                == items[k].event.resource_id.0@,
        forall|i: int, j: int|
            0 <= i < j < r->Ok_0@.len() ==> {
                let a = #[trigger] r->Ok_0@[i];
                let b = #[trigger] r->Ok_0@[j];
                ||| text_lt(a.tenant_id.0@, b.tenant_id.0@)
                ||| a.tenant_id.0@ == b.tenant_id.0@ && text_lt(
                    a.resource_id.0@,
                    b.resource_id.0@,
                )
            },
{
    let list = r->Ok_0@;
    lemma_latest_present(items, k);
    assert(covers(list, place_of(items[k])));
    let i = choose|i: int| 0 <= i < list.len() && place_in(#[trigger] list[i]) == place_of(items[k]);
    assert(list[i].tenant_id.0@ == items[k].event.tenant_id.0@);
}

/// Tenants do not interfere: a stream of intact events with distinct ids is
/// sound exactly when the part of it that belongs to each tenant is.
pub proof fn law_tenants_do_not_interfere(items: Seq<StreamEvent>)
    requires
        forall|k: int| 0 <= k < items.len() ==> intact(#[trigger] items[k]),
        distinct_ids(items),
    ensures
        stream_sound(items) <==> forall|tenant: Seq<char>|
            stream_sound(#[trigger] of_tenant(items, tenant)),
{
    assert forall|tenant: Seq<char>| stream_sound(items) implies stream_sound(
        #[trigger] of_tenant(items, tenant),
    ) by {
        lemma_part_sound(items, tenant);
    }
    if forall|tenant: Seq<char>| stream_sound(#[trigger] of_tenant(items, tenant)) {
        lemma_parts_suffice(items);
    }
}

/// Events of different tenants never leave a gap after each other, whatever
/// resource, version and state they name.
pub proof fn law_other_tenants_leave_no_gap(a: StreamEvent, b: StreamEvent)
    requires
        intact(a),
        intact(b),
        a.event.event_id.0@ != b.event.event_id.0@,
        a.event.tenant_id.0@ != b.event.tenant_id.0@,
    ensures
        stream_sound(seq![a, b]),
{
    let items = seq![a, b];
    reveal_strlit("cmt_");
    assert forall|k: int| 0 <= k < items.len() implies #[trigger] stream_complaint(
        items,
        k,
    ) is None by {
        assert(intact(items[k]));
        if repeats(items, k) {
            assert(items[0].event.event_id.0@ == items[1].event.event_id.0@);
        }
        if leaves_gap(items, k) {
            let j = choose|j: int| #[trigger]
                last_before(items, j, k) && !continues(items[j].event, items[k].event);
            assert(j == 0 && k == 1);
        }
    }
}

/// Events of one tenant leave no gap after each other where they concern
/// different resources.
pub proof fn law_other_resources_leave_no_gap(a: StreamEvent, b: StreamEvent)
    requires
        intact(a),
        intact(b),
        a.event.event_id.0@ != b.event.event_id.0@,
        a.event.resource_id.0@ != b.event.resource_id.0@,
    ensures
        stream_sound(seq![a, b]),
{
    let items = seq![a, b];
    reveal_strlit("cmt_");
    assert forall|k: int| 0 <= k < items.len() implies #[trigger] stream_complaint(
        items,
        k,
    ) is None by {
        assert(intact(items[k]));
        if repeats(items, k) {
            assert(items[0].event.event_id.0@ == items[1].event.event_id.0@);
        }
        if leaves_gap(items, k) {
            let j = choose|j: int| #[trigger]
                last_before(items, j, k) && !continues(items[j].event, items[k].event);
            assert(j == 0 && k == 1);
        }
    }
}

/// The last event of a stream leaves a gap after the last earlier one on its
/// resource, if at all.
proof fn lemma_gap_at_the_end(items: Seq<StreamEvent>)
    requires
        items.len() > 0,
    ensures
        ({
            let earlier = latest(items.drop_last());
            let place = place_of(items.last());
            leaves_gap(items, items.len() - 1) <==> earlier.contains_key(place) && !continues(
                earlier[place].event,
                items.last().event,
            )
        }),
{
    let rest = items.drop_last();
    let last = items.len() - 1;
    let place = place_of(items.last());
    assert(items[last] == items.last());
    if latest(rest).contains_key(place) {
        let at = lemma_latest(rest, place);
        assert(rest[at] == items[at]);
        assert forall|k: int| at < k < last implies !same_place(
            #[trigger] items[k],
            items[last],
        ) by {
            assert(rest[k] == items[k]);
            assert(place_of(rest[k]) != place);
        }
        assert(last_before(items, at, last));
        assert forall|k: int| #[trigger] last_before(items, k, last) implies k == at by {
            if k < at {
                assert(!same_place(items[at], items[last]));
            }
        }
    }
    if leaves_gap(items, last) {
        let k = choose|k: int| #[trigger]
            last_before(items, k, last) && !continues(items[k].event, items[last].event);
        assert(rest[k] == items[k]);
        lemma_latest_present(rest, k);
    }
}

/// A tenant's part of a stream has the stream's last events on the tenant's
/// resources.
proof fn lemma_latest_of_tenant(items: Seq<StreamEvent>, item: StreamEvent)
    ensures
        ({
            let part = latest(of_tenant(items, item.event.tenant_id.0@));
            let all = latest(items);
            let place = place_of(item);
            &&& part.contains_key(place) == all.contains_key(place)
            &&& part.contains_key(place) ==> part[place] == all[place]
        }),
    decreases items.len(),
{
    let tenant = item.event.tenant_id.0@;
    if items.len() > 0 {
        lemma_latest_of_tenant(items.drop_last(), item);
        if items.last().event.tenant_id.0@ == tenant {
            assert(of_tenant(items, tenant).drop_last() =~= of_tenant(items.drop_last(), tenant));
            assert(of_tenant(items, tenant).last() == items.last());
        }
    }
}

/// Every event of a tenant's part is an event of the stream.
proof fn lemma_part_within(items: Seq<StreamEvent>, tenant: Seq<char>, k: int) -> (at: int)
    requires
        0 <= k < of_tenant(items, tenant).len(),
    ensures
        0 <= at < items.len(),
        items[at] == of_tenant(items, tenant)[k],
    decreases items.len(),
{
    let rest = items.drop_last();
    if items.last().event.tenant_id.0@ == tenant && k == of_tenant(rest, tenant).len() {
        items.len() - 1
    } else {
        let at = lemma_part_within(rest, tenant, k);
        assert(rest[at] == items[at]);
        at
    }
}

/// A stream with one more event is sound if it was and the event follows on.
proof fn lemma_one_more(items: Seq<StreamEvent>)
    requires
        items.len() > 0,
        intact(items.last()),
        forall|k: int|
            0 <= k < items.len() - 1 ==> (#[trigger] items[k]).event.event_id.0@
                != items.last().event.event_id.0@,
    ensures
        stream_sound(items) <==> stream_sound(items.drop_last()) && !leaves_gap(
            items,
            items.len() - 1,
        ),
{
    let rest = items.drop_last();
    let last = items.len() - 1;
    reveal_strlit("cmt_");
    assert(items[last] == items.last());
    assert(!repeats(items, last));
    assert(stream_complaint(items, last) is None <==> !leaves_gap(items, last));
    assert(rest =~= items.take(last));
    assert forall|k: int| 0 <= k < last implies #[trigger] stream_complaint(rest, k)
        == stream_complaint(items, k) by {
        lemma_prefix_complaint(items, last, k);
    }
    if stream_sound(items) {
        assert(stream_complaint(items, last) is None);
        assert forall|k: int| 0 <= k < rest.len() implies #[trigger] stream_complaint(
            rest,
            k,
        ) is None by {
            assert(stream_complaint(items, k) is None);
        }
    }
    if stream_sound(rest) && !leaves_gap(items, last) {
        assert forall|k: int| 0 <= k < items.len() implies #[trigger] stream_complaint(
            items,
            k,
        ) is None by {
            if k < last {
                assert(stream_complaint(rest, k) is None);
            }
        }
    }
}

/// With a tenant's event at its end, a stream leaves a gap there exactly when
/// the tenant's part does, and both are otherwise as sound as without it.
proof fn lemma_same_end(items: Seq<StreamEvent>)
    requires
        items.len() > 0,
        forall|k: int| 0 <= k < items.len() ==> intact(#[trigger] items[k]),
        distinct_ids(items),
    ensures
        ({
            let tenant = items.last().event.tenant_id.0@;
            let part = of_tenant(items, tenant);
            let gap = leaves_gap(items, items.len() - 1);
            &&& stream_sound(items) <==> stream_sound(items.drop_last()) && !gap
            &&& stream_sound(part) <==> stream_sound(of_tenant(items.drop_last(), tenant)) && !gap
        }),
{
    let tenant = items.last().event.tenant_id.0@;
    let rest = items.drop_last();
    let part = of_tenant(items, tenant);
    assert(items[items.len() - 1] == items.last());
    assert(part.drop_last() =~= of_tenant(rest, tenant));
    assert(part.last() == items.last());
    lemma_gap_at_the_end(items);
    lemma_gap_at_the_end(part);
    lemma_latest_of_tenant(rest, items.last());
    lemma_one_more(items);
    assert forall|k: int| 0 <= k < part.len() - 1 implies (#[trigger] part[k]).event.event_id.0@
        != part.last().event.event_id.0@ by {
        assert(part[k] == of_tenant(rest, tenant)[k]);
        let at = lemma_part_within(rest, tenant, k);
        assert(rest[at] == items[at]);
    }
    lemma_one_more(part);
}

proof fn lemma_rest(items: Seq<StreamEvent>)
    requires
        items.len() > 0,
        forall|k: int| 0 <= k < items.len() ==> intact(#[trigger] items[k]),
        distinct_ids(items),
    ensures
        forall|k: int|
            0 <= k < items.drop_last().len() ==> intact(#[trigger] items.drop_last()[k]),
        distinct_ids(items.drop_last()),
{
    let rest = items.drop_last();
    assert forall|k: int| 0 <= k < rest.len() implies intact(#[trigger] rest[k]) by {
        assert(intact(items[k]));
    }
    assert forall|i: int, j: int| 0 <= i < j < rest.len() implies (
    #[trigger] rest[i]).event.event_id.0@ != (#[trigger] rest[j]).event.event_id.0@ by {
        assert(items[i].event.event_id.0@ != items[j].event.event_id.0@);
    }
}

proof fn lemma_part_sound(items: Seq<StreamEvent>, tenant: Seq<char>)
    requires
        forall|k: int| 0 <= k < items.len() ==> intact(#[trigger] items[k]),
        distinct_ids(items),
    ensures
        stream_sound(items) ==> stream_sound(of_tenant(items, tenant)),
    decreases items.len(),
{
    if items.len() > 0 {
        lemma_rest(items);
        lemma_part_sound(items.drop_last(), tenant);
        lemma_same_end(items);
    }
}

proof fn lemma_parts_suffice(items: Seq<StreamEvent>)
    requires
        forall|k: int| 0 <= k < items.len() ==> intact(#[trigger] items[k]),
        distinct_ids(items),
        forall|tenant: Seq<char>| stream_sound(#[trigger] of_tenant(items, tenant)),
    ensures
        stream_sound(items),
    decreases items.len(),
{
    if items.len() > 0 {
        let rest = items.drop_last();
        lemma_rest(items);
        lemma_same_end(items);
        assert(stream_sound(of_tenant(items, items.last().event.tenant_id.0@)));
        assert forall|tenant: Seq<char>| stream_sound(#[trigger] of_tenant(rest, tenant)) by {
            assert(stream_sound(of_tenant(items, tenant)));
        }
        lemma_parts_suffice(rest);
    }
}

} // verus!
