//! Telemetry of mutations.
//!
//! Observations are aggregated by tenant, operation and outcome, never kept
//! raw. The number of series is bounded: observations of further series, and
//! of labels that are too long or hold control characters, are dropped and
//! counted.
use vstd::prelude::*;

use crate::domain::ids::{Operation, TenantId};
use crate::limits::MAX_ID_LENGTH;
use crate::text::{
    chars_of, control_char, has_control_char, lemma_text_lt_irreflexive, lemma_text_lt_total,
    lemma_text_lt_transitive, text_less, text_lt,
};

verus! {

/// What became of a mutation attempt.
#[derive(Debug, Clone, Copy, PartialEq, Eq, PartialOrd, Ord, Structural)]
pub enum MutationOutcome {
    /// Committed durably.
    Committed,
    /// An idempotent replay.
    Replay,
    /// Rejected by a check.
    Rejected,
    /// Failed for a passing reason.
    RetryableFailure,
}

/// One observation.
#[derive(Debug, Clone, PartialEq, Eq)]
pub struct MutationMetric {
    /// The tenant.
    pub tenant: TenantId,
    /// The operation.
    pub operation: Operation,
    /// The outcome.
    pub outcome: MutationOutcome,
    /// The elapsed milliseconds.
    pub latency_ms: u64,
}

/// The aggregate of a series.
#[derive(Debug, PartialEq, Eq)]
pub struct MetricAggregate {
    /// The tenant.
    pub tenant: TenantId,
    /// The operation.
    pub operation: Operation,
    /// The outcome.
    pub outcome: MutationOutcome,
    /// The number of observations.
    pub count: u64,
    /// The sum of the latencies.
    pub total_latency_ms: u64,
    /// The greatest latency.
    pub max_latency_ms: u64,
}

/// What identifies a series.
#[verifier::ext_equal]
pub struct SeriesKey {
    /// The tenant.
    pub tenant: Seq<char>,
    /// The operation.
    pub operation: Seq<char>,
    /// The outcome.
    pub outcome: MutationOutcome,
}

/// The counters of a series.
#[verifier::ext_equal]
pub struct SeriesCounts {
    /// The number of observations.
    pub count: u64,
    /// The sum of the latencies.
    pub total_latency_ms: u64,
    /// The greatest latency.
    pub max_latency_ms: u64,
}

impl MetricAggregate {
    /// The identity of the series.
    pub open spec fn key(self) -> SeriesKey {
        SeriesKey { tenant: self.tenant.0@, operation: self.operation.0@, outcome: self.outcome }
    }

    /// The counters of the series.
    pub open spec fn counts(self) -> SeriesCounts {
        SeriesCounts {
            count: self.count,
            total_latency_ms: self.total_latency_ms,
            max_latency_ms: self.max_latency_ms,
        }
    }
}

impl Clone for MetricAggregate {
    fn clone(&self) -> (r: Self)
        ensures
            r == *self,
    {
        MetricAggregate {
            tenant: self.tenant.clone(),
            operation: self.operation.clone(),
            outcome: self.outcome,
            count: self.count,
            total_latency_ms: self.total_latency_ms,
            max_latency_ms: self.max_latency_ms,
        }
    }
}

/// The place of an outcome in the order of series.
pub open spec fn outcome_rank(outcome: MutationOutcome) -> int {
    match outcome {
        MutationOutcome::Committed => 0,
        MutationOutcome::Replay => 1,
        MutationOutcome::Rejected => 2,
        MutationOutcome::RetryableFailure => 3,
    }
}

fn rank(outcome: MutationOutcome) -> (r: u8)
    ensures
        r == outcome_rank(outcome),
{
    match outcome {
        MutationOutcome::Committed => 0,
        MutationOutcome::Replay => 1,
        MutationOutcome::Rejected => 2,
        MutationOutcome::RetryableFailure => 3,
    }
}

/// The order of series: by tenant, then operation, then outcome.
pub open spec fn key_lt(a: SeriesKey, b: SeriesKey) -> bool {
    text_lt(a.tenant, b.tenant) || (a.tenant == b.tenant && (text_lt(a.operation, b.operation) || (
    a.operation == b.operation && outcome_rank(a.outcome) < outcome_rank(b.outcome))))
}

/// Whether series are in strictly increasing order.
pub open spec fn ordered(series: Seq<MetricAggregate>) -> bool {
    forall|i: int, j: int|
        0 <= i < j < series.len() ==> key_lt(
            (#[trigger] series[i]).key(),
            (#[trigger] series[j]).key(),
        )
}

/// The counters of a series among aggregates.
pub open spec fn counts_in(series: Seq<MetricAggregate>, key: SeriesKey) -> Option<SeriesCounts> {
    if exists|i: int| 0 <= i < series.len() && (#[trigger] series[i]).key() == key {
        Some(
            series[choose|i: int|
                0 <= i < series.len() && (#[trigger] series[i]).key() == key].counts(),
        )
    } else {
        None
    }
}

/// Whether a text serves as a label: not too long and free of control
/// characters.
pub open spec fn is_label(text: Seq<char>) -> bool {
    text.len() <= MAX_ID_LENGTH && forall|i: int|
        0 <= i < text.len() ==> !control_char(#[trigger] text[i])
}

fn serves_as_label(text: &str) -> (r: bool)
    ensures
        r == is_label(text@),
{
    chars_of(text).len() <= MAX_ID_LENGTH && !has_control_char(text)
}

/// The counters after one more observation.
pub open spec fn observed(counts: Option<SeriesCounts>, latency_ms: u64) -> SeriesCounts {
    match counts {
        None => SeriesCounts {
            count: 1,
            total_latency_ms: latency_ms,
            max_latency_ms: latency_ms,
        },
        Some(c) => SeriesCounts {
            count: if c.count == u64::MAX {
                u64::MAX
            } else {
                (c.count + 1) as u64
            },
            total_latency_ms: if c.total_latency_ms + latency_ms > u64::MAX {
                u64::MAX
            } else {
                (c.total_latency_ms + latency_ms) as u64
            },
            max_latency_ms: if c.max_latency_ms >= latency_ms {
                c.max_latency_ms
            } else {
                latency_ms
            },
        },
    }
}

/// The series that an observation belongs to.
pub open spec fn series_of(metric: MutationMetric) -> SeriesKey {
    SeriesKey {
        tenant: metric.tenant.0@,
        operation: metric.operation.0@,
        outcome: metric.outcome,
    }
}

/// The counters under each key of aggregates.
pub open spec fn tabulated(series: Seq<MetricAggregate>) -> Map<SeriesKey, SeriesCounts> {
    Map::new(
        |key: SeriesKey| counts_in(series, key) is Some,
        |key: SeriesKey| counts_in(series, key)->0,
    )
}

/// What an aggregation of observations holds.
#[verifier::ext_equal]
pub struct MetricsContent {
    /// The bound on the number of series.
    pub bound: nat,
    /// The counters of each series.
    pub series: Map<SeriesKey, SeriesCounts>,
    /// The number of dropped observations.
    pub drops: u64,
}

impl MetricsContent {
    /// An aggregation of no observations.
    pub open spec fn empty(bound: nat) -> MetricsContent {
        MetricsContent { bound, series: Map::empty(), drops: 0 }
    }

    /// The counters of a series.
    pub open spec fn counts(self, key: SeriesKey) -> Option<SeriesCounts> {
        if self.series.contains_key(key) {
            Some(self.series[key])
        } else {
            None
        }
    }

    /// Whether an observation is taken: its labels serve, and its series is
    /// known or there is room for one more.
    pub open spec fn admits(self, metric: MutationMetric) -> bool {
        labelled(metric) && (self.series.contains_key(series_of(metric)) || self.series.len()
            < self.bound)
    }
}

/// Whether both labels of an observation serve as labels.
pub open spec fn labelled(metric: MutationMetric) -> bool {
    is_label(metric.tenant.0@) && is_label(metric.operation.0@)
}

/// What an aggregation holds after one more observation: it is counted in its
/// series, or among the dropped ones.
pub open spec fn recorded(before: MetricsContent, metric: MutationMetric) -> MetricsContent {
    if before.admits(metric) {
        let key = series_of(metric);
        MetricsContent {
            series: before.series.insert(key, observed(before.counts(key), metric.latency_ms)),
            ..before
        }
    } else {
        MetricsContent {
            drops: if before.drops == u64::MAX {
                u64::MAX
            } else {
                (before.drops + 1) as u64
            },
            ..before
        }
    }
}

/// A bounded in-process aggregation of observations.
#[derive(Debug)]
pub struct InMemoryMetrics {
    max_series: usize,
    series: Vec<MetricAggregate>,
    dropped: u64,
}

proof fn lemma_key_lt_irreflexive(a: SeriesKey)
    ensures
        !key_lt(a, a),
{
    lemma_text_lt_irreflexive(a.tenant);
    lemma_text_lt_irreflexive(a.operation);
}

proof fn lemma_key_lt_transitive(a: SeriesKey, b: SeriesKey, c: SeriesKey)
    requires
        key_lt(a, b),
        key_lt(b, c),
    ensures
        key_lt(a, c),
{
    if text_lt(a.tenant, b.tenant) && text_lt(b.tenant, c.tenant) {
        lemma_text_lt_transitive(a.tenant, b.tenant, c.tenant);
    } else if a.tenant == b.tenant && b.tenant == c.tenant {
        if text_lt(a.operation, b.operation) && text_lt(b.operation, c.operation) {
            lemma_text_lt_transitive(a.operation, b.operation, c.operation);
        }
    }
}

proof fn lemma_key_lt_total(a: SeriesKey, b: SeriesKey)
    ensures
        key_lt(a, b) || a == b || key_lt(b, a),
{
    lemma_text_lt_total(a.tenant, b.tenant);
    lemma_text_lt_total(a.operation, b.operation);
}

/// In ordered series the counters under a key are those of the one aggregate
/// that has it.
proof fn lemma_counts_at(series: Seq<MetricAggregate>, at: int)
    requires
        ordered(series),
        0 <= at < series.len(),
    ensures
        counts_in(series, series[at].key()) == Some(series[at].counts()),
{
    let key = series[at].key();
    let i = choose|i: int| 0 <= i < series.len() && (#[trigger] series[i]).key() == key;
    lemma_key_lt_irreflexive(key);
    assert(i == at);
}

/// Ordered aggregates have as many keys as there are aggregates.
proof fn lemma_tabulated_len(series: Seq<MetricAggregate>)
    requires
        ordered(series),
    ensures
        tabulated(series).dom().finite(),
        tabulated(series).len() == series.len(),
{
    let keys = series.map_values(|aggregate: MetricAggregate| aggregate.key());
    assert forall|i: int, j: int| 0 <= i < j < keys.len() implies keys[i] != keys[j] by {
        assert(key_lt(series[i].key(), series[j].key()));
        lemma_key_lt_irreflexive(keys[i]);
    }
    keys.unique_seq_to_set();
    vstd::seq_lib::seq_to_set_is_finite(keys);
    assert forall|key: SeriesKey| keys.contains(key) implies #[trigger] tabulated(
        series,
    ).contains_key(key) by {
        let i = choose|i: int| 0 <= i < keys.len() && keys[i] == key;
        assert(series[i].key() == key);
    }
    assert forall|key: SeriesKey| #[trigger] tabulated(series).contains_key(key) implies
        keys.contains(key) by {
        let i = choose|i: int| 0 <= i < series.len() && (#[trigger] series[i]).key() == key;
        assert(keys[i] == key);
    }
    assert(tabulated(series).dom() =~= keys.to_set());
}

impl View for InMemoryMetrics {
    type V = MetricsContent;

    closed spec fn view(&self) -> MetricsContent {
        MetricsContent {
            bound: self.max_series as nat,
            series: tabulated(self.series@),
            drops: self.dropped,
        }
    }
}

impl InMemoryMetrics {
    #[verifier::type_invariant]
    spec fn consistent(self) -> bool {
        self.max_series >= 1 && ordered(self.series@) && self.series@.len() <= self.max_series
    }

    /// No observations yet. A bound of zero counts as one.
    pub fn new(max_series: usize) -> (r: Self)
        ensures
            r@ == MetricsContent::empty(
                if max_series == 0 {
                    1
                } else {
                    max_series as nat
                },
            ),
    {
        let r = InMemoryMetrics {
            max_series: if max_series == 0 {
                1
            } else {
                max_series
            },
            series: Vec::new(),
            dropped: 0,
        };
        assert(r@.series =~= Map::empty());
        r
    }

    /// The aggregates, ordered by tenant, operation and outcome. There are no
    /// more of them than the bound says.
    pub fn snapshot(&self) -> (r: Vec<MetricAggregate>)
        ensures
            ordered(r@),
            tabulated(r@) == self@.series,
            r@.len() == self@.series.len(),
            r@.len() <= self@.bound,
    {
        proof {
            use_type_invariant(self);
            lemma_tabulated_len(self.series@);
        }
        let mut copies: Vec<MetricAggregate> = Vec::new();
        let mut i: usize = 0;
        while i < self.series.len()
            invariant
                i <= self.series@.len(),
                copies@ == self.series@.take(i as int),
            decreases self.series@.len() - i,
        {
            copies.push(self.series[i].clone());
            assert(self.series@.take(i + 1) =~= self.series@.take(i as int).push(
                self.series@[i as int],
            ));
            i = i + 1;
        }
        assert(self.series@.take(i as int) =~= self.series@);
        copies
    }

    /// The number of observations dropped.
    pub fn dropped(&self) -> (r: u64)
        ensures
            r == self@.drops,
    {
        self.dropped
    }

    /// Records one observation, or drops and counts it.
    pub fn record_mutation(&mut self, metric: MutationMetric)
        ensures
            final(self)@ == recorded(old(self)@, metric),
    {
        proof {
            use_type_invariant(&*self);
            lemma_tabulated_len(self.series@);
        }
        let ghost key = series_of(metric);
        let ghost before = self.series@;
        if !serves_as_label(metric.tenant.as_str()) || !serves_as_label(
            metric.operation.as_str(),
        ) {
            self.dropped = self.dropped.saturating_add(1);
            return;
        }
        let mut i: usize = 0;
        while i < self.series.len() && precedes(&self.series[i], &metric)
            invariant
                i <= self.series@.len(),
                *self == *old(self),
                before == self.series@,
                key == series_of(metric),
                forall|k: int| 0 <= k < i ==> key_lt((#[trigger] before[k]).key(), key),
            decreases self.series@.len() - i,
        {
            i = i + 1;
        }
        if i < self.series.len() && self.series[i].tenant.same(&metric.tenant)
            && self.series[i].operation.same(&metric.operation) && self.series[i].outcome
            == metric.outcome {
            proof {
                assert(before[i as int].key() == key);
                lemma_counts_at(before, i as int);
            }
            let current = self.series[i].clone();
            let updated = MetricAggregate {
                tenant: current.tenant,
                operation: current.operation,
                outcome: current.outcome,
                count: current.count.saturating_add(1),
                total_latency_ms: current.total_latency_ms.saturating_add(metric.latency_ms),
                max_latency_ms: if current.max_latency_ms >= metric.latency_ms {
                    current.max_latency_ms
                } else {
                    metric.latency_ms
                },
            };
            let mut series: Vec<MetricAggregate> = Vec::new();
            std::mem::swap(&mut series, &mut self.series);
            series.set(i, updated);
            proof {
                let after = series@;
                assert(after =~= before.update(i as int, updated));
                assert forall|k: int| 0 <= k < after.len() implies (#[trigger] after[k]).key()
                    == before[k].key() by {
                }
                assert(ordered(after)) by {
                    assert forall|a: int, b: int| 0 <= a < b < after.len() implies key_lt(
                        (#[trigger] after[a]).key(),
                        (#[trigger] after[b]).key(),
                    ) by {
                        assert(key_lt(before[a].key(), before[b].key()));
                    }
                }
                lemma_counts_at(after, i as int);
                assert forall|other: SeriesKey| other != key implies #[trigger] counts_in(
                    after,
                    other,
                ) == counts_in(before, other) by {
                    lemma_other_counts(before, after, other);
                }
                assert(tabulated(after) =~= tabulated(before).insert(key, updated.counts()));
            }
            self.series = series;
            return;
        }
        proof {
            if i < before.len() {
                lemma_key_lt_total(before[i as int].key(), key);
                assert(key_lt(key, before[i as int].key()));
            }
            assert(counts_in(before, key) is None) by {
                if exists|k: int| 0 <= k < before.len() && (#[trigger] before[k]).key() == key {
                    let k = choose|k: int|
                        0 <= k < before.len() && (#[trigger] before[k]).key() == key;
                    lemma_key_lt_irreflexive(key);
                    if k > i {
                        assert(key_lt(before[i as int].key(), before[k].key()));
                        lemma_key_lt_transitive(key, before[i as int].key(), key);
                    }
                }
            }
        }
        if self.series.len() >= self.max_series {
            self.dropped = self.dropped.saturating_add(1);
            return;
        }
        let added = MetricAggregate {
            tenant: metric.tenant,
            operation: metric.operation,
            outcome: metric.outcome,
            count: 1,
            total_latency_ms: metric.latency_ms,
            max_latency_ms: metric.latency_ms,
        };
        let mut series: Vec<MetricAggregate> = Vec::new();
        std::mem::swap(&mut series, &mut self.series);
        series.insert(i, added);
        proof {
            let after = series@;
            assert(after =~= before.insert(i as int, added));
            assert(added.key() == key);
            lemma_ordered_insert(before, i as int, added);
            lemma_counts_at(after, i as int);
            assert forall|other: SeriesKey| other != key implies #[trigger] counts_in(after, other)
                == counts_in(before, other) by {
                lemma_inserted_counts(before, i as int, added, other);
            }
            assert(tabulated(after) =~= tabulated(before).insert(key, added.counts()));
        }
        self.series = series;
    }
}

impl Default for InMemoryMetrics {
    fn default() -> (r: Self)
        ensures
            r@ == MetricsContent::empty(1024),
    {
        InMemoryMetrics::new(1024)
    }
}

/// Inserting an aggregate between smaller and greater ones keeps the order.
proof fn lemma_ordered_insert(series: Seq<MetricAggregate>, at: int, added: MetricAggregate)
    requires
        ordered(series),
        0 <= at <= series.len(),
        forall|k: int| 0 <= k < at ==> key_lt((#[trigger] series[k]).key(), added.key()),
        at < series.len() ==> key_lt(added.key(), series[at].key()),
    ensures
        ordered(series.insert(at, added)),
{
    let after = series.insert(at, added);
    assert forall|a: int, b: int| 0 <= a < b < after.len() implies key_lt(
        (#[trigger] after[a]).key(),
        (#[trigger] after[b]).key(),
    ) by {
        if a < at && b < at {
            assert(after[a] == series[a] && after[b] == series[b]);
        } else if a < at && b == at {
            assert(after[a] == series[a]);
        } else if a < at {
            assert(after[a] == series[a] && after[b] == series[b - 1]);
        } else if a == at {
            assert(after[b] == series[b - 1]);
            if b - 1 > at {
                assert(key_lt(series[at].key(), series[b - 1].key()));
                lemma_key_lt_transitive(added.key(), series[at].key(), series[b - 1].key());
            }
        } else {
            assert(after[a] == series[a - 1] && after[b] == series[b - 1]);
        }
    }
}

/// Changing the counters under one key leaves those under other keys.
proof fn lemma_other_counts(
    before: Seq<MetricAggregate>,
    after: Seq<MetricAggregate>,
    other: SeriesKey,
)
    requires
        ordered(before),
        ordered(after),
        before.len() == after.len(),
        forall|k: int| 0 <= k < after.len() ==> (#[trigger] after[k]).key() == before[k].key(),
        forall|k: int|
            0 <= k < after.len() && (#[trigger] after[k]).key() == other ==> after[k] == before[k],
    ensures
        counts_in(after, other) == counts_in(before, other),
{
    if exists|k: int| 0 <= k < after.len() && (#[trigger] after[k]).key() == other {
        let k = choose|k: int| 0 <= k < after.len() && (#[trigger] after[k]).key() == other;
        lemma_counts_at(after, k);
        lemma_counts_at(before, k);
    } else {
        assert forall|k: int| 0 <= k < before.len() implies (#[trigger] before[k]).key()
            != other by {
            assert(after[k].key() == before[k].key());
        }
    }
}

/// Adding a series leaves the counters of the others.
proof fn lemma_inserted_counts(
    series: Seq<MetricAggregate>,
    at: int,
    added: MetricAggregate,
    other: SeriesKey,
)
    requires
        ordered(series),
        ordered(series.insert(at, added)),
        0 <= at <= series.len(),
        added.key() != other,
    ensures
        counts_in(series.insert(at, added), other) == counts_in(series, other),
{
    let after = series.insert(at, added);
    if exists|k: int| 0 <= k < series.len() && (#[trigger] series[k]).key() == other {
        let k = choose|k: int| 0 <= k < series.len() && (#[trigger] series[k]).key() == other;
        let m = if k < at {
            k
        } else {
            k + 1
        };
        assert(after[m] == series[k]);
        lemma_counts_at(series, k);
        lemma_counts_at(after, m);
    } else {
        assert forall|m: int| 0 <= m < after.len() implies (#[trigger] after[m]).key() != other by {
            if m < at {
                assert(after[m] == series[m]);
            } else if m > at {
                assert(after[m] == series[m - 1]);
            }
        }
    }
}

fn precedes(aggregate: &MetricAggregate, metric: &MutationMetric) -> (r: bool)
    ensures
        r == key_lt(aggregate.key(), series_of(*metric)),
{
    if text_less(aggregate.tenant.as_str(), metric.tenant.as_str()) {
        return true;
    }
    if !aggregate.tenant.same(&metric.tenant) {
        return false;
    }
    if text_less(aggregate.operation.as_str(), metric.operation.as_str()) {
        return true;
    }
    aggregate.operation.same(&metric.operation) && rank(aggregate.outcome) < rank(metric.outcome)
}

// ---------------------------------------------------------------------------
// Histories.
// ---------------------------------------------------------------------------
/// What an aggregation holds after a history of observations.
pub open spec fn recording(bound: nat, metrics: Seq<MutationMetric>) -> MetricsContent
    decreases metrics.len(),
{
    if metrics.len() == 0 {
        MetricsContent::empty(bound)
    } else {
        recorded(recording(bound, metrics.drop_last()), metrics.last())
    }
}

/// The latencies of a series that were taken in a history.
pub open spec fn taken(bound: nat, metrics: Seq<MutationMetric>, key: SeriesKey) -> Seq<u64>
    decreases metrics.len(),
{
    if metrics.len() == 0 {
        Seq::empty()
    } else {
        let earlier = taken(bound, metrics.drop_last(), key);
        if series_of(metrics.last()) == key && recording(bound, metrics.drop_last()).admits(
            metrics.last(),
        ) {
            earlier.push(metrics.last().latency_ms)
        } else {
            earlier
        }
    }
}

/// The sum of latencies.
pub open spec fn total_of(latencies: Seq<u64>) -> nat
    decreases latencies.len(),
{
    if latencies.len() == 0 {
        0
    } else {
        total_of(latencies.drop_last()) + latencies.last() as nat
    }
}

/// The greatest of latencies.
pub open spec fn greatest_of(latencies: Seq<u64>) -> u64
    decreases latencies.len(),
{
    if latencies.len() == 0 {
        0
    } else if greatest_of(latencies.drop_last()) >= latencies.last() {
        greatest_of(latencies.drop_last())
    } else {
        latencies.last()
    }
}

/// A number as a counter holds it, which stops at its greatest value.
pub open spec fn capped(n: nat) -> u64 {
    if n <= u64::MAX {
        n as u64
    } else {
        u64::MAX
    }
}

/// The number of observations in aggregates.
pub open spec fn counted(series: Seq<MetricAggregate>) -> nat
    decreases series.len(),
{
    if series.len() == 0 {
        0
    } else {
        counted(series.drop_last()) + series.last().count as nat
    }
}

/// Whatever is recorded, the number of series stays within the bound.
pub proof fn law_series_stay_within_the_bound(bound: nat, metrics: Seq<MutationMetric>)
    ensures
        recording(bound, metrics).bound == bound,
        recording(bound, metrics).series.dom().finite(),
        recording(bound, metrics).series.len() <= bound,
    decreases metrics.len(),
{
    if metrics.len() > 0 {
        law_series_stay_within_the_bound(bound, metrics.drop_last());
    }
}

/// An observation of a series that is known is never dropped; one whose labels
/// do not serve always is.
pub proof fn law_only_new_series_are_dropped(
    bound: nat,
    metrics: Seq<MutationMetric>,
    metric: MutationMetric,
)
    ensures
        recording(bound, metrics).series.contains_key(series_of(metric)) ==> recording(
            bound,
            metrics,
        ).admits(metric),
        !labelled(metric) ==> !recording(bound, metrics).admits(metric),
    decreases metrics.len(),
{
    if metrics.len() > 0 {
        law_only_new_series_are_dropped(bound, metrics.drop_last(), metric);
    }
}

/// Each series sums up the observations of it that were taken: their number,
/// the sum of their latencies and the greatest of them, as far as counters
/// reach. A series without such observations does not exist.
pub proof fn law_series_sum_up_what_was_taken(
    bound: nat,
    metrics: Seq<MutationMetric>,
    key: SeriesKey,
)
    ensures
        recording(bound, metrics).counts(key) == (if taken(bound, metrics, key).len() == 0 {
            None
        } else {
            Some(
                SeriesCounts {
                    count: capped(taken(bound, metrics, key).len()),
                    total_latency_ms: capped(total_of(taken(bound, metrics, key))),
                    max_latency_ms: greatest_of(taken(bound, metrics, key)),
                },
            )
        }),
    decreases metrics.len(),
{
    if metrics.len() > 0 {
        law_series_sum_up_what_was_taken(bound, metrics.drop_last(), key);
        let earlier = taken(bound, metrics.drop_last(), key);
        let latency = metrics.last().latency_ms;
        assert(earlier.push(latency).drop_last() =~= earlier);
        if earlier.len() == 0 {
            assert(earlier =~= Seq::empty());
        }
    }
}

/// The number of observations in a table of series.
spec fn accounted(series: Map<SeriesKey, SeriesCounts>) -> nat
    decreases series.len(),
    when series.dom().finite()
{
    if series.len() == 0 {
        0
    } else {
        let key = series.dom().choose();
        series[key].count as nat + accounted(series.remove(key))
    }
}

/// Any one series can be counted first.
proof fn lemma_accounted(series: Map<SeriesKey, SeriesCounts>, key: SeriesKey)
    requires
        series.dom().finite(),
        series.contains_key(key),
    ensures
        accounted(series) == series[key].count as nat + accounted(series.remove(key)),
    decreases series.len(),
{
    let first = series.dom().choose();
    assert(series.dom().contains(first));
    if first != key {
        lemma_accounted(series.remove(first), key);
        lemma_accounted(series.remove(key), first);
        assert(series.remove(first).remove(key) =~= series.remove(key).remove(first));
    }
}

/// A list of series has the observations of their table.
proof fn lemma_counted(series: Seq<MetricAggregate>)
    requires
        ordered(series),
    ensures
        counted(series) == accounted(tabulated(series)),
    decreases series.len(),
{
    lemma_tabulated_len(series);
    if series.len() > 0 {
        let rest = series.drop_last();
        let last = series.len() - 1;
        let key = series[last].key();
        assert forall|i: int, j: int| 0 <= i < j < rest.len() implies key_lt(
            (#[trigger] rest[i]).key(),
            (#[trigger] rest[j]).key(),
        ) by {
            assert(rest[i] == series[i] && rest[j] == series[j]);
        }
        lemma_counted(rest);
        lemma_counts_at(series, last);
        assert(counts_in(rest, key) is None) by {
            if exists|i: int| 0 <= i < rest.len() && (#[trigger] rest[i]).key() == key {
                let i = choose|i: int| 0 <= i < rest.len() && (#[trigger] rest[i]).key() == key;
                assert(key_lt(series[i].key(), series[last].key()));
                lemma_key_lt_irreflexive(key);
            }
        }
        assert(rest.insert(last, series[last]) =~= series);
        assert forall|other: SeriesKey| other != key implies #[trigger] counts_in(rest, other)
            == counts_in(series, other) by {
            lemma_inserted_counts(rest, last, series[last], other);
        }
        assert(tabulated(series).remove(key) =~= tabulated(rest));
        lemma_accounted(tabulated(series), key);
    }
}

proof fn lemma_recording_accounted(bound: nat, metrics: Seq<MutationMetric>)
    requires
        metrics.len() <= u64::MAX,
    ensures
        accounted(recording(bound, metrics).series) + recording(bound, metrics).drops
            == metrics.len(),
    decreases metrics.len(),
{
    law_series_stay_within_the_bound(bound, metrics);
    if metrics.len() > 0 {
        let before = recording(bound, metrics.drop_last());
        let after = recording(bound, metrics);
        let key = series_of(metrics.last());
        law_series_stay_within_the_bound(bound, metrics.drop_last());
        lemma_recording_accounted(bound, metrics.drop_last());
        if before.admits(metrics.last()) {
            lemma_accounted(after.series, key);
            if before.series.contains_key(key) {
                lemma_accounted(before.series, key);
                assert(after.series.remove(key) =~= before.series.remove(key));
            } else {
                assert(after.series.remove(key) =~= before.series);
            }
        }
    }
}

/// Every recording is counted once: the counts of the series, listed as a
/// snapshot lists them, and the dropped observations add up to the number of
/// recordings, as far as counters reach.
pub proof fn law_every_recording_is_counted(
    bound: nat,
    metrics: Seq<MutationMetric>,
    snapshot: Seq<MetricAggregate>,
)
    requires
        metrics.len() <= u64::MAX,
        ordered(snapshot),
        tabulated(snapshot) == recording(bound, metrics).series,
    ensures
        counted(snapshot) + recording(bound, metrics).drops == metrics.len(),
{
    lemma_recording_accounted(bound, metrics);
    lemma_counted(snapshot);
}

/// A sink that records nothing.
#[derive(Debug, Clone, Copy, Default)]
pub struct NoopMetrics;

impl NoopMetrics {
    /// Records nothing.
    pub fn record_mutation(&self, _metric: MutationMetric) {
    }
}

} // verus!
