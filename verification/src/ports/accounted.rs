//! What the outbox, the quota and the metrics account for.
use vstd::prelude::*;
use vstd::string::StringSliceAdditionalSpecFns;

use crate::domain::digest::ContentDigest;
use crate::ports::observability::{
    is_label, key_lt, recorded, MetricsContent, MutationMetric, MutationOutcome, SeriesKey,
};
use crate::ports::outbox::{
    after_application, after_claim, after_digest, after_mark, after_pass, after_release,
    after_row, after_tick, between_ticks, merged, ConsumeStep, ConsumerDeliveryClaim,
    DispatchReport, DispatchStep, DrainStep, OutboxError, OutboxPayload, OutboxWorkerConfig, Pass,
    PoisonPolicy, Worker, WorkerStep,
};
use crate::ports::quota::request_fault;
use crate::text::{control_char, lemma_text_lt_irreflexive, text_lt};

verus! {

/// A count after some more, held at the largest.
pub open spec fn held_at_most(n: int) -> int {
    if n > u64::MAX {
        u64::MAX as int
    } else {
        n
    }
}

// ---------------------------------------------------------------------------
// The outbox.
// ---------------------------------------------------------------------------
/// Only a row whose body has the digest that the row states is published. A row
/// without it is sent back under one policy, and set aside under the other.
pub proof fn law_only_intact_rows_are_published(r: DispatchStep, pass: Pass, actual: ContentDigest)
    requires
        after_digest(r, pass, actual),
    ensures
        ({
            let payload = pass.rows()[pass.next() as int].1;
            let stated = match payload {
                OutboxPayload::Opaque { payload_digest, .. } => payload_digest.bytes@,
            };
            &&& r is PublishRow <==> actual.bytes@ == stated
            &&& r is RejectRow <==> actual.bytes@ != stated && pass.policy()
                == PoisonPolicy::Retry
            &&& r is QuarantineRow <==> actual.bytes@ != stated && pass.policy()
                == PoisonPolicy::Quarantine
            &&& r !is Done
        }),
{
}

/// A pass goes over its rows one by one, in order, and ends after the last.
pub proof fn law_passes_go_row_by_row(r: DispatchStep, from: Pass, report: DispatchReport)
    requires
        after_row(r, from, report),
        from.next() < from.rows().len(),
    ensures
        r is Done <==> from.next() == from.rows().len() - 1,
        r is Done ==> r->Done_0 == Ok::<DispatchReport, OutboxError>(report) && report.delivered
            + report.retried + report.quarantined == from.rows().len(),
        r is DigestRow <==> from.next() < from.rows().len() - 1,
        r is DigestRow ==> r->DigestRow_0.pass().next() == from.next() + 1
            && r->DigestRow_0.pass().rows() == from.rows() && r->DigestRow_0.pass().report()
            == report && r->DigestRow_0.pass().policy() == from.policy(),
{
}

/// Reports add up, column by column.
pub proof fn law_reports_add_up(a: DispatchReport, b: DispatchReport)
    ensures
        merged(a, b).delivered == held_at_most(a.delivered + b.delivered),
        merged(a, b).retried == held_at_most(a.retried + b.retried),
        merged(a, b).quarantined == held_at_most(a.quarantined + b.quarantined),
{
}

/// A drain adds up its passes. It ends with the first pass that neither
/// delivers nor retries anything, with the last one that it may make, and with
/// an error.
pub proof fn law_drains_stop_when_nothing_moves(
    r: DrainStep,
    remaining: nat,
    so_far: DispatchReport,
    pass: Result<DispatchReport, OutboxError>,
)
    requires
        after_pass(r, remaining, so_far, pass),
        remaining > 0,
    ensures
        pass is Err ==> r is Done && r->Done_0 is Err,
        pass is Ok ==> {
            let report = pass->Ok_0;
            &&& r is Done <==> remaining == 1 || report.delivered + report.retried == 0
            &&& r is Done ==> r->Done_0 is Ok && r->Done_0->Ok_0.delivered == held_at_most(
                so_far.delivered + report.delivered,
            ) && r->Done_0->Ok_0.retried == held_at_most(so_far.retried + report.retried)
                && r->Done_0->Ok_0.quarantined == held_at_most(
                so_far.quarantined + report.quarantined,
            )
            &&& r is RunPass ==> r->RunPass_0.remaining() == remaining - 1
                && r->RunPass_0.total().delivered == held_at_most(
                so_far.delivered + report.delivered,
            ) && r->RunPass_0.total().retried == held_at_most(so_far.retried + report.retried)
                && r->RunPass_0.total().quarantined == held_at_most(
                so_far.quarantined + report.quarantined,
            )
        },
{
}

/// The worker that a step leaves waiting.
pub open spec fn waiting(r: WorkerStep) -> Worker {
    match r {
        WorkerStep::AskStop(step) => step.worker(),
        WorkerStep::RunTick(step) => step.worker(),
        WorkerStep::Sleep(step) => step.worker(),
        WorkerStep::Done(_) => arbitrary(),
    }
}

/// A tick that dispatched is counted: what it delivered, retried and set aside
/// is added to the account, and the delay after errors starts over. The worker
/// rests for the idle delay exactly when the pass found nothing at all.
pub proof fn law_ticks_are_counted(r: WorkerStep, worker: Worker, report: DispatchReport)
    requires
        after_tick(r, worker, Ok(report)),
    ensures
        r is Sleep <==> report.delivered + report.retried + report.quarantined == 0,
        r is Sleep ==> r->Sleep_0.delay() == worker.config.idle_backoff
            && r->Sleep_0.failure() is None,
        r is Done <==> report.delivered + report.retried + report.quarantined > 0
            && worker.remaining == 0,
        r is Done ==> r->Done_0 is Ok,
        ({
            let account = match r {
                WorkerStep::Done(Ok(account)) => account,
                _ => waiting(r).report,
            };
            &&& account.delivered == held_at_most(worker.report.delivered + report.delivered)
            &&& account.retried == held_at_most(worker.report.retried + report.retried)
            &&& account.quarantined == held_at_most(
                worker.report.quarantined + report.quarantined,
            )
            &&& account.ticks == worker.report.ticks
            &&& account.transient_errors == worker.report.transient_errors
        }),
        r !is Done ==> waiting(r).backoff == worker.config.error_backoff && waiting(r).remaining
            == worker.remaining && waiting(r).config == worker.config,
{
}

/// A tick that failed for the time being is counted as such, and the worker
/// waits for the delay that it had; the next such delay is twice as long, up to
/// the longest. It ends in the error only if this was its last tick. A
/// corruption ends the worker at once.
pub proof fn law_failed_ticks_wait_longer(r: WorkerStep, worker: Worker, error: OutboxError)
    requires
        after_tick(r, worker, Err(error)),
    ensures
        error is Corrupt <==> r is Done,
        error is Corrupt ==> r->Done_0 is Err && r->Done_0->Err_0 == error,
        error is Unavailable ==> {
            let longest = worker.config.max_error_backoff.nanos;
            &&& r is Sleep
            &&& r->Sleep_0.delay() == worker.backoff
            &&& r->Sleep_0.failure() is Some <==> worker.remaining == 0
            &&& r->Sleep_0.failure() is Some ==> r->Sleep_0.failure()->0 == error
            &&& waiting(r).backoff.nanos == if 2 * worker.backoff.nanos < longest {
                2 * worker.backoff.nanos
            } else {
                longest as int
            }
            &&& waiting(r).report.transient_errors == held_at_most(
                worker.report.transient_errors + 1,
            )
            &&& waiting(r).report.delivered == worker.report.delivered
            &&& waiting(r).report.retried == worker.report.retried
            &&& waiting(r).report.quarantined == worker.report.quarantined
            &&& waiting(r).report.ticks == worker.report.ticks
            &&& waiting(r).remaining == worker.remaining
            &&& waiting(r).config == worker.config
        },
{
}

/// Between ticks a worker ends when it has none left, and asks whether to stop
/// otherwise; starting a tick takes one of those left and counts it.
pub proof fn law_workers_use_their_ticks(r: WorkerStep, worker: Worker)
    requires
        between_ticks(r, worker),
    ensures
        r is Done <==> worker.remaining == 0,
        r is Done ==> r->Done_0 is Ok && r->Done_0->Ok_0 == worker.report,
        r is AskStop ==> waiting(r) == worker,
        worker.remaining > 0 ==> worker.ticking().remaining == worker.remaining - 1
            && worker.ticking().report.ticks == held_at_most(worker.report.ticks + 1)
            && worker.ticking().backoff == worker.backoff && worker.ticking().config
            == worker.config,
{
}

/// A worker runs only with a name, rows to claim, ticks to make, a lease that
/// lasts, and a first delay that is within the longest.
pub proof fn law_workers_need_bounds(config: OutboxWorkerConfig, worker_id: Seq<char>)
    ensures
        config.valid_for(worker_id) <==> {
            &&& worker_id.len() >= 1
            &&& config.batch_size >= 1
            &&& config.max_ticks >= 1
            &&& config.lease_duration_secs >= 1
            &&& config.max_error_backoff.nanos >= config.error_backoff.nanos
        },
{
}

/// Only a new claim lets a delivery be applied. One that was applied before is
/// acknowledged as such and not applied again; one that another consumer holds,
/// and a claim that failed, end in an error.
pub proof fn law_only_new_deliveries_are_applied(
    r: ConsumeStep,
    claim: Result<ConsumerDeliveryClaim, OutboxError>,
)
    requires
        after_claim(r, claim),
    ensures
        r is Apply <==> claim is Ok && claim->Ok_0 is New,
        r is Apply ==> r->Apply_0.attempt() == claim->Ok_0->New_attempt_id@,
        r is Done && r->Done_0 is Ok <==> claim is Ok && claim->Ok_0 is AlreadyApplied,
        r is Done && r->Done_0 is Ok ==> !r->Done_0->Ok_0,
        r is Done && r->Done_0 is Err <==> claim is Err || claim->Ok_0 is InProgress,
{
}

/// A delivery counts as applied only when it was applied and recorded, both
/// under the attempt that claimed it. Where it was not applied, its claim is
/// released and the consumption fails.
pub proof fn law_applied_deliveries_are_recorded(
    applying: ConsumeStep,
    attempt: Seq<char>,
    applied: Result<(), String>,
    end: ConsumeStep,
    released: Result<(), OutboxError>,
    marked: Result<(), OutboxError>,
)
    requires
        after_application(applying, attempt, applied),
        applying is MarkApplied ==> after_mark(end, marked),
        applying is Release ==> after_release(end, applying->Release_0.error(), released),
    ensures
        end is Done,
        end->Done_0 == Ok::<bool, OutboxError>(true) <==> applied is Ok && marked is Ok,
        end->Done_0 is Ok ==> end->Done_0->Ok_0,
        applied is Ok ==> applying is MarkApplied && applying->MarkApplied_0.attempt() == attempt,
        applied is Err ==> applying is Release && applying->Release_0.attempt() == attempt,
{
}

// ---------------------------------------------------------------------------
// The quota.
// ---------------------------------------------------------------------------
/// A charge is well-formed exactly when its key is not empty and not too long,
/// it costs something, and its time is not before the epoch.
pub proof fn law_charges_need_a_key_and_a_cost(key: &str, cost: u64, now_unix_ms: i64)
    ensures
        request_fault(key, cost, now_unix_ms) is None <==> key@.len() >= 1
            && key.spec_bytes().len() <= 512 && cost >= 1 && now_unix_ms >= 0,
{
}

// ---------------------------------------------------------------------------
// The metrics.
// ---------------------------------------------------------------------------
/// A mutation is recorded under its own tenant, operation and outcome: the
/// series counts it, adds its latency and keeps the greatest. Other series stay
/// as they are. A mutation without room for its series, or with a label that is
/// not one, is counted as dropped and changes no series.
pub proof fn law_mutations_are_recorded_in_their_series(
    before: MetricsContent,
    metric: MutationMetric,
    other: SeriesKey,
)
    ensures
        ({
            let after = recorded(before, metric);
            let key = SeriesKey {
                tenant: metric.tenant.0@,
                operation: metric.operation.0@,
                outcome: metric.outcome,
            };
            let known = before.series.contains_key(key);
            let taken = is_label(metric.tenant.0@) && is_label(metric.operation.0@) && (known
                || before.series.len() < before.bound);
            &&& after.bound == before.bound
            &&& taken ==> {
                &&& after.drops == before.drops
                &&& after.series.contains_key(key)
                &&& known ==> {
                    let was = before.series[key];
                    let is_now = after.series[key];
                    &&& is_now.count == held_at_most(was.count + 1)
                    &&& is_now.total_latency_ms == held_at_most(
                        was.total_latency_ms + metric.latency_ms,
                    )
                    &&& is_now.max_latency_ms >= was.max_latency_ms
                    &&& is_now.max_latency_ms >= metric.latency_ms
                    &&& is_now.max_latency_ms == was.max_latency_ms || is_now.max_latency_ms
                        == metric.latency_ms
                }
                &&& !known ==> {
                    let is_now = after.series[key];
                    &&& is_now.count == 1
                    &&& is_now.total_latency_ms == metric.latency_ms
                    &&& is_now.max_latency_ms == metric.latency_ms
                }
                &&& other != key ==> (after.series.contains_key(other)
                    == before.series.contains_key(other)) && after.series[other]
                    == before.series[other]
            }
            &&& !taken ==> after.series == before.series && after.drops == held_at_most(
                before.drops + 1,
            )
        }),
{
}

/// A label is bounded text without control characters.
pub proof fn law_labels_are_bounded_text(text: Seq<char>)
    ensures
        is_label(text) <==> text.len() <= 256 && forall|i: int|
            0 <= i < text.len() ==> 32 <= (#[trigger] text[i] as int) && !(127 <= (text[i] as int)
                < 160),
{
    if is_label(text) {
        assert forall|i: int| 0 <= i < text.len() implies 32 <= (#[trigger] text[i] as int) && !(
        127 <= (text[i] as int) < 160) by {
            assert(!control_char(text[i]));
        }
    }
}

/// Series are listed by tenant, then by operation, then by outcome: committed,
/// replayed, rejected and retryable, in this order.
pub proof fn law_series_are_listed_in_order(a: SeriesKey, b: SeriesKey)
    ensures
        text_lt(a.tenant, b.tenant) ==> key_lt(a, b),
        a.tenant == b.tenant && text_lt(a.operation, b.operation) ==> key_lt(a, b),
        a.tenant == b.tenant && a.operation == b.operation ==> (key_lt(a, b) <==> match a.outcome {
            MutationOutcome::Committed => b.outcome != MutationOutcome::Committed,
            MutationOutcome::Replay => b.outcome == MutationOutcome::Rejected || b.outcome
                == MutationOutcome::RetryableFailure,
            MutationOutcome::Rejected => b.outcome == MutationOutcome::RetryableFailure,
            MutationOutcome::RetryableFailure => false,
        }),
        key_lt(a, b) ==> text_lt(a.tenant, b.tenant) || a.tenant == b.tenant,
{
    lemma_text_lt_irreflexive(a.tenant);
    lemma_text_lt_irreflexive(a.operation);
}

} // verus!
