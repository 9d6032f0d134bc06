//! The history of a trade.
//!
//! A history lists a record's events in their canonical order, each with its
//! body, and the distinct commits behind its sides and value legs.
use vstd::prelude::*;

use crate::domain::commit::CommitRef;
use crate::domain::event::{same_event, Event};
use crate::domain::ids::TenantId;
use crate::index::error::IndexError;
use crate::index::table::Table;
use crate::index::trade::{
    LegContent, RecordContent, SideContent, TradeEvent, TradeHistory, TradeRecord,
};

verus! {

/// Events under their ids, under their tenants.
pub type EventsById = Table<Table<Event>>;

/// The event of a tenant with an id.
pub open spec fn event_at(events: EventsById, tenant: Seq<char>, id: Seq<char>) -> Option<Event> {
    if events@.contains_key(tenant) && events@[tenant]@.contains_key(id) {
        Some(events@[tenant]@[id])
    } else {
        None
    }
}

/// Finds the event of a tenant with an id.
pub fn find_event<'a>(events: &'a EventsById, tenant: &str, id: &str) -> (r: Option<&'a Event>)
    ensures
        match r {
            Some(event) => event_at(*events, tenant@, id@) == Some(*event),
            None => event_at(*events, tenant@, id@) is None,
        },
{
    match events.get(tenant) {
        Some(own) => own.get(id),
        None => None,
    }
}

/// Whether a commit of a tenant is listed.
pub open spec fn listed(
    commits: Seq<(Seq<char>, CommitRef)>,
    tenant: Seq<char>,
    commit: CommitRef,
) -> bool {
    exists|i: int|
        0 <= i < commits.len() && (#[trigger] commits[i]).0 == tenant && commits[i].1.commit_id.0@
            == commit.commit_id.0@
}

/// A list of commits with one more, unless it is listed.
pub open spec fn with_commit(
    commits: Seq<(Seq<char>, CommitRef)>,
    tenant: Seq<char>,
    commit: CommitRef,
) -> Seq<(Seq<char>, CommitRef)> {
    if listed(commits, tenant, commit) {
        commits
    } else {
        commits.push((tenant, commit))
    }
}

/// A list of commits with those of sides.
pub open spec fn with_side_commits(sides: Seq<SideContent>) -> Seq<(Seq<char>, CommitRef)>
    decreases sides.len(),
{
    if sides.len() == 0 {
        Seq::empty()
    } else {
        with_commit(with_side_commits(sides.drop_last()), sides.last().tenant, sides.last().commit)
    }
}

/// A list of commits with those of value legs.
pub open spec fn with_leg_commits(
    commits: Seq<(Seq<char>, CommitRef)>,
    legs: Seq<LegContent>,
) -> Seq<(Seq<char>, CommitRef)>
    decreases legs.len(),
{
    if legs.len() == 0 {
        commits
    } else {
        with_commit(
            with_leg_commits(commits, legs.drop_last()),
            legs.last().tenant,
            legs.last().commit,
        )
    }
}

/// The distinct commits of a record: those of its sides, then those of its
/// value legs.
pub open spec fn commits_of(record: RecordContent) -> Seq<(Seq<char>, CommitRef)> {
    with_leg_commits(with_side_commits(record.sides), record.legs)
}

/// The contents of commits with their tenants.
pub open spec fn commit_contents(list: Seq<(TenantId, CommitRef)>) -> Seq<(Seq<char>, CommitRef)> {
    list.map_values(|entry: (TenantId, CommitRef)| (entry.0.0@, entry.1))
}

fn add_commit(commits: &mut Vec<(TenantId, CommitRef)>, tenant: &TenantId, commit: &CommitRef)
    ensures
        commit_contents(final(commits)@) == with_commit(
            commit_contents(old(commits)@),
            tenant.0@,
            *commit,
        ),
{
    let ghost before = commit_contents(commits@);
    let mut i: usize = 0;
    while i < commits.len()
        invariant
            i <= commits@.len(),
            commits@ == old(commits)@,
            before == commit_contents(commits@),
            forall|k: int|
                0 <= k < i ==> !((#[trigger] before[k]).0 == tenant.0@ && before[k].1.commit_id.0@
                    == commit.commit_id.0@),
        decreases commits@.len() - i,
    {
        assert(before[i as int] == (commits@[i as int].0.0@, commits@[i as int].1));
        if commits[i].0.same(tenant) && commits[i].1.commit_id.same(&commit.commit_id) {
            assert(listed(before, tenant.0@, *commit));
            return;
        }
        i = i + 1;
    }
    assert(!listed(before, tenant.0@, *commit));
    commits.push((tenant.clone(), commit.clone()));
    assert(commit_contents(commits@) =~= before.push((tenant.0@, *commit)));
}

/// The distinct commits of a record.
pub fn collect_commits(record: &TradeRecord) -> (r: Vec<(TenantId, CommitRef)>)
    ensures
        commit_contents(r@) == commits_of(record@),
{
    let ghost sides = record@.sides;
    let ghost legs = record@.legs;
    let mut commits: Vec<(TenantId, CommitRef)> = Vec::new();
    let mut i: usize = 0;
    assert(sides.take(0) =~= Seq::empty());
    assert(commit_contents(commits@) =~= with_side_commits(sides.take(0)));
    while i < record.sides.len()
        invariant
            i <= record.sides@.len(),
            sides == record@.sides,
            commit_contents(commits@) == with_side_commits(sides.take(i as int)),
        decreases record.sides@.len() - i,
    {
        proof {
            assert(sides.take(i + 1).drop_last() =~= sides.take(i as int));
            assert(sides.take(i + 1).last() == record.sides@[i as int]@);
        }
        add_commit(&mut commits, &record.sides[i].tenant, &record.sides[i].settle_commit);
        i = i + 1;
    }
    assert(sides.take(i as int) =~= sides);
    let ghost of_sides = commit_contents(commits@);
    let mut j: usize = 0;
    assert(legs.take(0) =~= Seq::empty());
    while j < record.value_legs.len()
        invariant
            j <= record.value_legs@.len(),
            legs == record@.legs,
            commit_contents(commits@) == with_leg_commits(of_sides, legs.take(j as int)),
        decreases record.value_legs@.len() - j,
    {
        proof {
            assert(legs.take(j + 1).drop_last() =~= legs.take(j as int));
            assert(legs.take(j + 1).last() == record.value_legs@[j as int]@);
        }
        add_commit(&mut commits, &record.value_legs[j].tenant, &record.value_legs[j].commit);
        j = j + 1;
    }
    assert(legs.take(j as int) =~= legs);
    commits
}

/// Whether an event reference of a record cannot be resolved.
pub open spec fn unresolved(record: RecordContent, events: EventsById, at: int) -> bool {
    0 <= at < record.events.len() && event_at(
        events,
        record.events[at].tenant_id,
        record.events[at].event_id,
    ) is None
}

/// Whether a history lists exactly a record's events and commits.
pub open spec fn recounts(
    history: TradeHistory,
    record: RecordContent,
    events: EventsById,
) -> bool {
    &&& history.trade_id@ == record.trade_id
    &&& history.status == record.status
    &&& history.events@.len() == record.events.len()
    &&& forall|i: int|
        0 <= i < history.events@.len() ==> (#[trigger] history.events@[i]).tenant_id.0@
            == record.events[i].tenant_id && same_event(
            history.events@[i].event,
            event_at(events, record.events[i].tenant_id, record.events[i].event_id)->0,
        )
    &&& commit_contents(history.commits@) == commits_of(record)
}

/// Reconstructs the history of a trade.
pub fn reconstruct_history(record: &TradeRecord, events_by_id: &EventsById) -> (r: Result<
    TradeHistory,
    IndexError,
>)
    ensures
        match r {
            Ok(history) => (forall|k: int| !#[trigger] unresolved(record@, *events_by_id, k))
                && recounts(history, record@, *events_by_id),
            Err(IndexError::MissingEvent(id)) => exists|at: int| #[trigger]
                unresolved(record@, *events_by_id, at) && id@ == record@.events[at].event_id
                    && forall|k: int|
                    0 <= k < at ==> !#[trigger] unresolved(record@, *events_by_id, k),
            Err(_) => false,
        },
{
    let ghost refs = record@.events;
    let mut events: Vec<TradeEvent> = Vec::new();
    let mut i: usize = 0;
    while i < record.events.len()
        invariant
            i <= record.events@.len(),
            refs == record@.events,
            events@.len() == i,
            forall|k: int| 0 <= k < i ==> !#[trigger] unresolved(record@, *events_by_id, k),
            forall|k: int|
                0 <= k < i ==> (#[trigger] events@[k]).tenant_id.0@ == refs[k].tenant_id
                    && same_event(
                    events@[k].event,
                    event_at(*events_by_id, refs[k].tenant_id, refs[k].event_id)->0,
                ),
        decreases record.events@.len() - i,
    {
        assert(refs[i as int] == record.events@[i as int]@);
        match find_event(
            events_by_id,
            record.events[i].tenant_id.as_str(),
            record.events[i].event_id.as_str(),
        ) {
            Some(event) => {
                assert(!unresolved(record@, *events_by_id, i as int));
                events.push(
                    TradeEvent {
                        event: event.clone(),
                        tenant_id: record.events[i].tenant_id.clone(),
                    },
                );
            },
            None => {
                assert(unresolved(record@, *events_by_id, i as int));
                return Err(IndexError::MissingEvent(record.events[i].event_id.0.clone()));
            },
        }
        i = i + 1;
    }
    let commits = collect_commits(record);
    Ok(
        TradeHistory {
            trade_id: record.trade_id.clone(),
            status: record.status,
            events,
            commits,
        },
    )
}

/// Whether no commit is listed twice.
pub open spec fn no_repeats(commits: Seq<(Seq<char>, CommitRef)>) -> bool {
    forall|i: int, j: int|
        0 <= i < j < commits.len() ==> !((#[trigger] commits[i]).0 == (#[trigger] commits[j]).0
            && commits[i].1.commit_id.0@ == commits[j].1.commit_id.0@)
}

proof fn lemma_with_commit(
    commits: Seq<(Seq<char>, CommitRef)>,
    tenant: Seq<char>,
    commit: CommitRef,
)
    requires
        no_repeats(commits),
    ensures
        no_repeats(with_commit(commits, tenant, commit)),
{
}

proof fn lemma_side_commits(sides: Seq<SideContent>)
    ensures
        no_repeats(with_side_commits(sides)),
    decreases sides.len(),
{
    if sides.len() > 0 {
        lemma_side_commits(sides.drop_last());
        lemma_with_commit(
            with_side_commits(sides.drop_last()),
            sides.last().tenant,
            sides.last().commit,
        );
    }
}

proof fn lemma_leg_commits(commits: Seq<(Seq<char>, CommitRef)>, legs: Seq<LegContent>)
    requires
        no_repeats(commits),
    ensures
        no_repeats(with_leg_commits(commits, legs)),
    decreases legs.len(),
{
    if legs.len() > 0 {
        lemma_leg_commits(commits, legs.drop_last());
        lemma_with_commit(
            with_leg_commits(commits, legs.drop_last()),
            legs.last().tenant,
            legs.last().commit,
        );
    }
}

/// A history lists each commit of a tenant once.
pub proof fn law_commits_are_listed_once(record: RecordContent)
    ensures
        no_repeats(commits_of(record)),
{
    lemma_side_commits(record.sides);
    lemma_leg_commits(with_side_commits(record.sides), record.legs);
}

} // verus!
