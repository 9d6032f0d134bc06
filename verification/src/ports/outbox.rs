//! Outbox delivery.
//!
//! Rows of the outbox are claimed under a lease, verified, published and
//! completed. Whether a ledger mutation commits never depends on a broker, so
//! every failure here releases the row for another attempt or sets it aside.
//! The decisions of a dispatch pass, of a draining or supervising worker and
//! of a consumer are made here; each pause for outside work is a type of its
//! own.
use vstd::arithmetic::power2::{lemma2_to64, lemma_pow2_unfold, pow2};
use vstd::prelude::*;

use crate::domain::digest::ContentDigest;
use crate::domain::ids::{CommitId, TenantId};
use crate::text::{join2, join3};

verus! {

/// A notification to deliver.
#[derive(Debug, Clone, PartialEq, Eq)]
pub enum OutboxPayload {
    /// A body that the ledger does not interpret.
    Opaque {
        /// The tenant whose mutation produced it.
        tenant: TenantId,
        /// The commit that it announces.
        commit_id: CommitId,
        /// The digest of the body.
        payload_digest: ContentDigest,
        /// The body.
        payload: Vec<u8>,
    },
}

impl OutboxPayload {
    /// The digest that the body must have.
    pub open spec fn expected_digest(self) -> ContentDigest {
        match self {
            OutboxPayload::Opaque { payload_digest, .. } => payload_digest,
        }
    }

    /// The bytes of the body.
    pub open spec fn body_bytes(self) -> Seq<u8> {
        match self {
            OutboxPayload::Opaque { payload, .. } => payload@,
        }
    }

    /// The body.
    pub fn body(&self) -> (r: &Vec<u8>)
        ensures
            r@ == self.body_bytes(),
    {
        match self {
            OutboxPayload::Opaque { payload, .. } => payload,
        }
    }

    fn expected(&self) -> (r: &ContentDigest)
        ensures
            *r == self.expected_digest(),
    {
        match self {
            OutboxPayload::Opaque { payload_digest, .. } => payload_digest,
        }
    }
}

/// A failure of the outbox.
#[derive(Debug, Clone, PartialEq, Eq)]
pub enum OutboxError {
    /// The item is delivered or leased already, or the store failed.
    Unavailable(String),
    /// The item fails an integrity or ownership check.
    Corrupt(String),
}

impl OutboxError {
    /// The rendering of the error.
    pub open spec fn text(self) -> Seq<char> {
        match self {
            OutboxError::Unavailable(m) => "outbox item is unavailable: "@ + m@,
            OutboxError::Corrupt(m) => "outbox item is corrupt: "@ + m@,
        }
    }

    /// Renders the error.
    pub fn message(&self) -> (r: String)
        ensures
            r@ == self.text(),
    {
        match self {
            OutboxError::Unavailable(m) => join2("outbox item is unavailable: ", m.as_str()),
            OutboxError::Corrupt(m) => join2("outbox item is corrupt: ", m.as_str()),
        }
    }

    /// Whether a worker may try again after a delay.
    pub fn is_retryable(&self) -> (r: bool)
        ensures
            r == (self is Unavailable),
    {
        match self {
            OutboxError::Unavailable(_) => true,
            OutboxError::Corrupt(_) => false,
        }
    }
}

/// Whether a result is the outbox's complaint that something is unavailable.
pub open spec fn unavailable<T>(r: Result<T, OutboxError>, text: Seq<char>) -> bool {
    match r {
        Err(OutboxError::Unavailable(message)) => message@ == text,
        _ => false,
    }
}

/// The state of a consumer's delivery key.
#[derive(Debug, Clone, PartialEq, Eq)]
pub enum ConsumerDeliveryClaim {
    /// The caller owns a new attempt.
    New {
        /// The attempt.
        attempt_id: String,
    },
    /// The delivery was applied before.
    AlreadyApplied,
    /// Another consumer owns the lease.
    InProgress {
        /// The other attempt.
        attempt_id: String,
        /// When its lease ends.
        lease_expires_at_unix: i64,
    },
}

/// The result of one dispatch pass.
#[derive(Debug, Clone, Copy, PartialEq, Eq, Default)]
pub struct DispatchReport {
    /// Rows published and completed.
    pub delivered: u64,
    /// Rows released after the publisher failed.
    pub retried: u64,
    /// Rows set aside as corrupt.
    pub quarantined: u64,
}

impl DispatchReport {
    /// The report of a pass that did nothing.
    pub open spec fn zero() -> DispatchReport {
        DispatchReport { delivered: 0, retried: 0, quarantined: 0 }
    }

    fn empty() -> (r: DispatchReport)
        ensures
            r == DispatchReport::zero(),
    {
        DispatchReport { delivered: 0, retried: 0, quarantined: 0 }
    }

    /// The number of rows that the report accounts for.
    pub open spec fn total(self) -> int {
        self.delivered + self.retried + self.quarantined
    }
}

/// A sum of counters that stops at the largest value.
pub open spec fn sat(a: u64, b: u64) -> u64 {
    if a + b > u64::MAX {
        u64::MAX
    } else {
        (a + b) as u64
    }
}

/// The sum of two reports.
pub open spec fn merged(a: DispatchReport, b: DispatchReport) -> DispatchReport {
    DispatchReport {
        delivered: sat(a.delivered, b.delivered),
        retried: sat(a.retried, b.retried),
        quarantined: sat(a.quarantined, b.quarantined),
    }
}

fn merge(a: DispatchReport, b: DispatchReport) -> (r: DispatchReport)
    ensures
        r == merged(a, b),
{
    DispatchReport {
        delivered: a.delivered.saturating_add(b.delivered),
        retried: a.retried.saturating_add(b.retried),
        quarantined: a.quarantined.saturating_add(b.quarantined),
    }
}

/// What happens to a row whose body does not match its digest.
#[derive(Debug, Clone, Copy, PartialEq, Eq, Structural)]
pub enum PoisonPolicy {
    /// Release it and stop with an error.
    Retry,
    /// Set it aside and go on.
    Quarantine,
}

// ---------------------------------------------------------------------------
// One dispatch pass.
// ---------------------------------------------------------------------------
/// Where a dispatch pass stands: paused for outside work, or done.
pub enum DispatchStep {
    /// Needs the digest of a row's body.
    DigestRow(AwaitDigest),
    /// Needs a row published.
    PublishRow(AwaitPublish),
    /// Needs a published row marked delivered.
    CompleteRow(AwaitComplete),
    /// Needs a row released after its publication failed.
    ReleaseRow(AwaitRelease),
    /// Needs a corrupt row released; the pass then stops.
    RejectRow(AwaitReject),
    /// Needs a corrupt row set aside.
    QuarantineRow(AwaitQuarantine),
    /// Finished.
    Done(Result<DispatchReport, OutboxError>),
}

/// The claimed rows of a pass and how far it has come.
pub struct Pass {
    rows: Vec<(String, OutboxPayload)>,
    next: usize,
    policy: PoisonPolicy,
    report: DispatchReport,
}

impl Pass {
    #[verifier::type_invariant]
    spec fn consistent(self) -> bool {
        self.next <= self.rows@.len() && self.report.total() == self.next
    }

    /// The claimed rows.
    pub closed spec fn rows(self) -> Seq<(String, OutboxPayload)> {
        self.rows@
    }

    /// The row in hand.
    pub closed spec fn next(self) -> nat {
        self.next as nat
    }

    /// What happens to corrupt rows.
    pub closed spec fn policy(self) -> PoisonPolicy {
        self.policy
    }

    /// The account of the rows before.
    pub closed spec fn report(self) -> DispatchReport {
        self.report
    }

    /// Whether this pass is another one, one row further on.
    pub open spec fn follows(self, from: Pass, report: DispatchReport) -> bool {
        self.rows() == from.rows() && self.next() == from.next() + 1 && self.policy()
            == from.policy() && self.report() == report
    }
}

/// Where a pass goes after a row: to the next row, or to its end.
pub open spec fn after_row(r: DispatchStep, from: Pass, report: DispatchReport) -> bool {
    if from.next() + 1 < from.rows().len() {
        match r {
            DispatchStep::DigestRow(step) => step.pass().follows(from, report),
            _ => false,
        }
    } else {
        match r {
            DispatchStep::Done(Ok(done)) => done == report && done.total() == from.rows().len(),
            _ => false,
        }
    }
}

fn advance(pass: Pass, report: DispatchReport) -> (r: DispatchStep)
    requires
        pass.next() < pass.rows().len(),
        report.total() == pass.next() + 1,
    ensures
        after_row(r, pass, report),
{
    proof {
        use_type_invariant(&pass);
    }
    if pass.next < pass.rows.len() - 1 {
        DispatchStep::DigestRow(
            AwaitDigest {
                pass: Pass {
                    rows: pass.rows,
                    next: pass.next + 1,
                    policy: pass.policy,
                    report,
                },
            },
        )
    } else {
        DispatchStep::Done(Ok(report))
    }
}

/// Where a pass goes once the digest of the row's body is known: a row with
/// its digest is published, another one is dealt with under the policy.
pub open spec fn after_digest(r: DispatchStep, pass: Pass, actual: ContentDigest) -> bool {
    if actual.bytes@ == pass.rows()[pass.next() as int].1.expected_digest().bytes@ {
        match r {
            DispatchStep::PublishRow(step) => step.pass() == pass,
            _ => false,
        }
    } else if pass.policy() == PoisonPolicy::Retry {
        match r {
            DispatchStep::RejectRow(step) => step.pass() == pass,
            _ => false,
        }
    } else {
        match r {
            DispatchStep::QuarantineRow(step) => step.pass() == pass,
            _ => false,
        }
    }
}

/// Begins a pass over claimed rows.
pub fn begin_dispatch(
    claimed: Result<Vec<(String, OutboxPayload)>, OutboxError>,
    policy: PoisonPolicy,
) -> (r: DispatchStep)
    ensures
        match claimed {
            Err(error) => r is Done && r->Done_0 == Err::<DispatchReport, OutboxError>(error),
            Ok(rows) => if rows@.len() == 0 {
                r is Done && r->Done_0 == Ok::<DispatchReport, OutboxError>(DispatchReport::zero())
            } else {
                match r {
                    DispatchStep::DigestRow(step) => step.pass().rows() == rows@
                        && step.pass().next() == 0 && step.pass().policy() == policy
                        && step.pass().report() == DispatchReport::zero(),
                    _ => false,
                }
            },
        },
{
    match claimed {
        Err(error) => DispatchStep::Done(Err(error)),
        Ok(rows) => {
            if rows.len() == 0 {
                DispatchStep::Done(Ok(DispatchReport::empty()))
            } else {
                DispatchStep::DigestRow(
                    AwaitDigest {
                        pass: Pass { rows, next: 0, policy, report: DispatchReport::empty() },
                    },
                )
            }
        },
    }
}

/// Waits for the digest of a row's body.
pub struct AwaitDigest {
    pass: Pass,
}

impl AwaitDigest {
    #[verifier::type_invariant]
    spec fn consistent(self) -> bool {
        self.pass.next() < self.pass.rows().len()
    }

    /// The pass.
    pub closed spec fn pass(self) -> Pass {
        self.pass
    }

    /// The body to digest.
    pub fn body(&self) -> (r: &Vec<u8>)
        ensures
            r@ == self.pass().rows()[self.pass().next() as int].1.body_bytes(),
    {
        proof {
            use_type_invariant(self);
        }
        self.pass.rows[self.pass.next].1.body()
    }

    /// Publishes a row whose body has its digest; deals with a corrupt row
    /// under the policy.
    pub fn resume(self, actual: ContentDigest) -> (r: DispatchStep)
        ensures
            after_digest(r, self.pass(), actual),
    {
        proof {
            use_type_invariant(&self);
        }
        let sound = actual.same(self.pass.rows[self.pass.next].1.expected());
        if sound {
            DispatchStep::PublishRow(AwaitPublish { pass: self.pass })
        } else {
            match self.pass.policy {
                PoisonPolicy::Retry => DispatchStep::RejectRow(AwaitReject { pass: self.pass }),
                PoisonPolicy::Quarantine => DispatchStep::QuarantineRow(
                    AwaitQuarantine { pass: self.pass },
                ),
            }
        }
    }
}

/// Waits for the publication of a row.
pub struct AwaitPublish {
    pass: Pass,
}

impl AwaitPublish {
    #[verifier::type_invariant]
    spec fn consistent(self) -> bool {
        self.pass.next() < self.pass.rows().len()
    }

    /// The pass.
    pub closed spec fn pass(self) -> Pass {
        self.pass
    }

    /// The row to publish.
    pub fn row(&self) -> (r: &(String, OutboxPayload))
        ensures
            *r == self.pass().rows()[self.pass().next() as int],
    {
        proof {
            use_type_invariant(self);
        }
        &self.pass.rows[self.pass.next]
    }

    /// Completes a published row; releases one that was not.
    pub fn resume(self, published: Result<(), String>) -> (r: DispatchStep)
        ensures
            match published {
                Ok(()) => match r {
                    DispatchStep::CompleteRow(step) => step.pass() == self.pass(),
                    _ => false,
                },
                Err(error) => match r {
                    DispatchStep::ReleaseRow(step) => step.pass() == self.pass() && step.error()
                        == error@,
                    _ => false,
                },
            },
    {
        proof {
            use_type_invariant(&self);
        }
        match published {
            Ok(()) => DispatchStep::CompleteRow(AwaitComplete { pass: self.pass }),
            Err(error) => DispatchStep::ReleaseRow(AwaitRelease { pass: self.pass, error }),
        }
    }
}

/// Waits for a published row to be marked delivered.
pub struct AwaitComplete {
    pass: Pass,
}

impl AwaitComplete {
    #[verifier::type_invariant]
    spec fn consistent(self) -> bool {
        self.pass.next() < self.pass.rows().len()
    }

    /// The pass.
    pub closed spec fn pass(self) -> Pass {
        self.pass
    }

    /// The row's delivery key.
    pub fn delivery_key(&self) -> (r: &str)
        ensures
            r@ == self.pass().rows()[self.pass().next() as int].0@,
    {
        proof {
            use_type_invariant(self);
        }
        self.pass.rows[self.pass.next].0.as_str()
    }

    /// Counts the row as delivered and goes on.
    pub fn resume(self, marked: Result<(), OutboxError>) -> (r: DispatchStep)
        ensures
            match marked {
                Err(error) => r is Done && r->Done_0 == Err::<DispatchReport, OutboxError>(error),
                Ok(()) => after_row(
                    r,
                    self.pass(),
                    (DispatchReport {
                        delivered: sat(self.pass().report().delivered, 1),
                        ..self.pass().report()
                    }),
                ),
            },
    {
        proof {
            use_type_invariant(&self);
            use_type_invariant(&self.pass);
        }
        match marked {
            Err(error) => DispatchStep::Done(Err(error)),
            Ok(()) => {
                let counts = self.pass.report;
                assert(counts.total() < self.pass.rows@.len());
                assert(self.pass.rows.len() <= u64::MAX);
                let report = DispatchReport {
                    delivered: counts.delivered.saturating_add(1),
                    retried: counts.retried,
                    quarantined: counts.quarantined,
                };
                advance(self.pass, report)
            },
        }
    }
}

/// Waits for the release of a row whose publication failed.
pub struct AwaitRelease {
    pass: Pass,
    error: String,
}

impl AwaitRelease {
    #[verifier::type_invariant]
    spec fn consistent(self) -> bool {
        self.pass.next() < self.pass.rows().len()
    }

    /// The pass.
    pub closed spec fn pass(self) -> Pass {
        self.pass
    }

    /// Why the publication failed.
    pub closed spec fn error(self) -> Seq<char> {
        self.error@
    }

    /// The row's delivery key.
    pub fn delivery_key(&self) -> (r: &str)
        ensures
            r@ == self.pass().rows()[self.pass().next() as int].0@,
    {
        proof {
            use_type_invariant(self);
        }
        self.pass.rows[self.pass.next].0.as_str()
    }

    /// Why the row is released.
    pub fn reason(&self) -> (r: &str)
        ensures
            r@ == self.error(),
    {
        self.error.as_str()
    }

    /// Counts the row as retried and goes on.
    pub fn resume(self, released: Result<(), OutboxError>) -> (r: DispatchStep)
        ensures
            match released {
                Err(error) => r is Done && r->Done_0 == Err::<DispatchReport, OutboxError>(error),
                Ok(()) => after_row(
                    r,
                    self.pass(),
                    (DispatchReport {
                        retried: sat(self.pass().report().retried, 1),
                        ..self.pass().report()
                    }),
                ),
            },
    {
        proof {
            use_type_invariant(&self);
            use_type_invariant(&self.pass);
        }
        match released {
            Err(error) => DispatchStep::Done(Err(error)),
            Ok(()) => {
                let counts = self.pass.report;
                assert(counts.total() < self.pass.rows@.len());
                assert(self.pass.rows.len() <= u64::MAX);
                let report = DispatchReport {
                    delivered: counts.delivered,
                    retried: counts.retried.saturating_add(1),
                    quarantined: counts.quarantined,
                };
                advance(self.pass, report)
            },
        }
    }
}

/// The reason recorded on a corrupt row.
pub const DIGEST_MISMATCH: &'static str = "payload digest mismatch";

/// Waits for the release of a corrupt row.
pub struct AwaitReject {
    pass: Pass,
}

impl AwaitReject {
    #[verifier::type_invariant]
    spec fn consistent(self) -> bool {
        self.pass.next() < self.pass.rows().len()
    }

    /// The pass.
    pub closed spec fn pass(self) -> Pass {
        self.pass
    }

    /// The row's delivery key.
    pub fn delivery_key(&self) -> (r: &str)
        ensures
            r@ == self.pass().rows()[self.pass().next() as int].0@,
    {
        proof {
            use_type_invariant(self);
        }
        self.pass.rows[self.pass.next].0.as_str()
    }

    /// Stops the pass: with the store's failure, else with the corruption.
    pub fn resume(self, released: Result<(), OutboxError>) -> (r: DispatchStep)
        ensures
            match released {
                Err(error) => r is Done && r->Done_0 == Err::<DispatchReport, OutboxError>(error),
                Ok(()) => match r {
                    DispatchStep::Done(Err(OutboxError::Corrupt(message))) => message@
                        == "payload digest mismatch for `"@
                        + self.pass().rows()[self.pass().next() as int].0@ + "`"@,
                    _ => false,
                },
            },
    {
        proof {
            use_type_invariant(&self);
        }
        match released {
            Err(error) => DispatchStep::Done(Err(error)),
            Ok(()) => DispatchStep::Done(
                Err(
                    OutboxError::Corrupt(
                        join3("payload digest mismatch for `", self.delivery_key(), "`"),
                    ),
                ),
            ),
        }
    }
}

/// Waits for a corrupt row to be set aside.
pub struct AwaitQuarantine {
    pass: Pass,
}

impl AwaitQuarantine {
    #[verifier::type_invariant]
    spec fn consistent(self) -> bool {
        self.pass.next() < self.pass.rows().len()
    }

    /// The pass.
    pub closed spec fn pass(self) -> Pass {
        self.pass
    }

    /// The row's delivery key.
    pub fn delivery_key(&self) -> (r: &str)
        ensures
            r@ == self.pass().rows()[self.pass().next() as int].0@,
    {
        proof {
            use_type_invariant(self);
        }
        self.pass.rows[self.pass.next].0.as_str()
    }

    /// Counts the row as quarantined and goes on with the rest of the pass. A
    /// quarantined row is no error: the report accounts for it. A corruption is
    /// an error only where corrupt rows are released for another try.
    pub fn resume(self, quarantined: Result<(), OutboxError>) -> (r: DispatchStep)
        ensures
            match quarantined {
                Err(error) => r is Done && r->Done_0 == Err::<DispatchReport, OutboxError>(error),
                Ok(()) => after_row(
                    r,
                    self.pass(),
                    (DispatchReport {
                        quarantined: sat(self.pass().report().quarantined, 1),
                        ..self.pass().report()
                    }),
                ),
            },
    {
        proof {
            use_type_invariant(&self);
            use_type_invariant(&self.pass);
        }
        match quarantined {
            Err(error) => DispatchStep::Done(Err(error)),
            Ok(()) => {
                let counts = self.pass.report;
                assert(counts.total() < self.pass.rows@.len());
                assert(self.pass.rows.len() <= u64::MAX);
                let report = DispatchReport {
                    delivered: counts.delivered,
                    retried: counts.retried,
                    quarantined: counts.quarantined.saturating_add(1),
                };
                advance(self.pass, report)
            },
        }
    }
}

// ---------------------------------------------------------------------------
// Draining.
// ---------------------------------------------------------------------------
/// Where a drain stands: it needs another pass, or is done.
pub enum DrainStep {
    /// Needs the result of one dispatch pass that releases corrupt rows.
    RunPass(AwaitPass),
    /// Finished.
    Done(Result<DispatchReport, OutboxError>),
}

/// Where a drain goes after a pass: on, until a pass delivers and retries
/// nothing or none is left.
pub open spec fn after_pass(
    r: DrainStep,
    remaining: nat,
    so_far: DispatchReport,
    pass: Result<DispatchReport, OutboxError>,
) -> bool {
    match pass {
        Err(error) => r is Done && r->Done_0 == Err::<DispatchReport, OutboxError>(error),
        Ok(report) => {
            let total = merged(so_far, report);
            if (report.delivered == 0 && report.retried == 0) || remaining == 1 {
                r is Done && r->Done_0 == Ok::<DispatchReport, OutboxError>(total)
            } else {
                match r {
                    DrainStep::RunPass(step) => step.remaining() == remaining - 1
                        && step.total() == total,
                    _ => false,
                }
            }
        },
    }
}

/// Waits for the result of one dispatch pass.
pub struct AwaitPass {
    remaining: usize,
    total: DispatchReport,
}

/// Begins a drain of at most `max_passes` passes.
pub fn begin_drain(limit: usize, max_passes: usize) -> (r: DrainStep)
    ensures
        if limit == 0 || max_passes == 0 {
            r is Done && unavailable(
                r->Done_0,
                "outbox drain limit and max_passes must be non-zero"@,
            )
        } else {
            match r {
                DrainStep::RunPass(step) => step.remaining() == max_passes && step.total()
                    == DispatchReport::zero(),
                _ => false,
            }
        },
{
    if limit == 0 || max_passes == 0 {
        return DrainStep::Done(
            Err(
                OutboxError::Unavailable(
                    "outbox drain limit and max_passes must be non-zero".to_owned(),
                ),
            ),
        );
    }
    DrainStep::RunPass(AwaitPass { remaining: max_passes, total: DispatchReport::empty() })
}

impl AwaitPass {
    #[verifier::type_invariant]
    spec fn consistent(self) -> bool {
        self.remaining > 0
    }

    /// How many passes are left, this one included.
    pub closed spec fn remaining(self) -> nat {
        self.remaining as nat
    }

    /// The account so far.
    pub closed spec fn total(self) -> DispatchReport {
        self.total
    }

    /// Goes on until a pass delivers and retries nothing, or none is left.
    pub fn resume(self, pass: Result<DispatchReport, OutboxError>) -> (r: DrainStep)
        ensures
            after_pass(r, self.remaining(), self.total(), pass),
    {
        proof {
            use_type_invariant(&self);
        }
        match pass {
            Err(error) => DrainStep::Done(Err(error)),
            Ok(report) => {
                let total = merge(self.total, report);
                if (report.delivered == 0 && report.retried == 0) || self.remaining == 1 {
                    DrainStep::Done(Ok(total))
                } else {
                    DrainStep::RunPass(AwaitPass { remaining: self.remaining - 1, total })
                }
            },
        }
    }
}

// ---------------------------------------------------------------------------
// The supervising worker.
// ---------------------------------------------------------------------------
/// A span of time in nanoseconds.
#[derive(Debug, Clone, Copy, PartialEq, Eq, PartialOrd, Ord, Structural)]
pub struct Delay {
    /// The nanoseconds.
    pub nanos: u128,
}

/// The bounds of a supervising worker.
#[derive(Debug, Clone, Copy, PartialEq, Eq)]
pub struct OutboxWorkerConfig {
    /// The most rows that one tick claims.
    pub batch_size: usize,
    /// How long a claim is leased.
    pub lease_duration_secs: i64,
    /// The most ticks before the worker returns.
    pub max_ticks: usize,
    /// The delay after an idle tick.
    pub idle_backoff: Delay,
    /// The first delay after a transient error.
    pub error_backoff: Delay,
    /// The longest delay after a transient error.
    pub max_error_backoff: Delay,
    /// What happens to corrupt rows.
    pub poison_policy: PoisonPolicy,
}

impl OutboxWorkerConfig {
    /// Whether a worker of the given name can run under these bounds.
    pub open spec fn valid_for(self, worker_id: Seq<char>) -> bool {
        worker_id.len() > 0 && self.batch_size > 0 && self.max_ticks > 0 && self.lease_duration_secs
            > 0 && self.error_backoff.nanos <= self.max_error_backoff.nanos
    }
}

/// The account of a supervising worker.
#[derive(Debug, Clone, Copy, PartialEq, Eq, Default)]
pub struct WorkerReport {
    /// Ticks attempted.
    pub ticks: u64,
    /// Rows delivered.
    pub delivered: u64,
    /// Rows released after the publisher failed.
    pub retried: u64,
    /// Rows set aside as corrupt.
    pub quarantined: u64,
    /// Transient errors that led to a delay.
    pub transient_errors: u64,
}

impl WorkerReport {
    /// The account of a worker that has not begun.
    pub open spec fn zero() -> WorkerReport {
        WorkerReport { ticks: 0, delivered: 0, retried: 0, quarantined: 0, transient_errors: 0 }
    }
}

/// The delay after another transient error: twice as long, up to the longest.
pub open spec fn next_backoff(current: u128, longest: u128) -> u128 {
    if current * 2 <= longest {
        (current * 2) as u128
    } else {
        longest
    }
}

/// Where a worker stands: paused for outside work, or done.
pub enum WorkerStep {
    /// Needs to know whether to stop.
    AskStop(AwaitStop),
    /// Needs the result of one dispatch pass.
    RunTick(AwaitTick),
    /// Needs a delay.
    Sleep(AwaitSleep),
    /// Finished.
    Done(Result<WorkerReport, OutboxError>),
}

/// How far a worker has come.
#[derive(Clone, Copy)]
pub struct Worker {
    /// The bounds.
    pub config: OutboxWorkerConfig,
    /// The ticks left.
    pub remaining: usize,
    /// The delay after the next transient error.
    pub backoff: Delay,
    /// The account so far.
    pub report: WorkerReport,
}

impl Worker {
    /// Whether every tick is either counted or left, and the delays are within
    /// their bound.
    pub open spec fn on_schedule(self) -> bool {
        &&& self.report.ticks + self.remaining == self.config.max_ticks
        &&& self.backoff.nanos <= self.config.max_error_backoff.nanos
        &&& self.config.error_backoff.nanos <= self.config.max_error_backoff.nanos
    }

    /// The worker once it has started a tick.
    pub open spec fn ticking(self) -> Worker {
        Worker {
            remaining: (self.remaining - 1) as usize,
            report: WorkerReport { ticks: sat(self.report.ticks, 1), ..self.report },
            ..self
        }
    }

    /// The worker after a transient error of a tick.
    pub open spec fn failed(self) -> Worker {
        Worker {
            backoff: Delay {
                nanos: next_backoff(self.backoff.nanos, self.config.max_error_backoff.nanos),
            },
            report: WorkerReport {
                transient_errors: sat(self.report.transient_errors, 1),
                ..self.report
            },
            ..self
        }
    }

    /// The worker after a number of ticks that all ended in a transient error.
    pub open spec fn failing(self, n: nat) -> Worker
        decreases n,
    {
        if n == 0 {
            self
        } else {
            self.failing((n - 1) as nat).ticking().failed()
        }
    }
}

/// Where a worker goes between ticks: it asks whether to stop, or has used all
/// its ticks.
pub open spec fn between_ticks(r: WorkerStep, worker: Worker) -> bool {
    if worker.remaining == 0 {
        r is Done && r->Done_0 == Ok::<WorkerReport, OutboxError>(worker.report)
            && worker.report.ticks == worker.config.max_ticks
    } else {
        match r {
            WorkerStep::AskStop(step) => step.worker() == worker,
            _ => false,
        }
    }
}

fn continue_worker(worker: Worker) -> (r: WorkerStep)
    requires
        worker.on_schedule(),
    ensures
        between_ticks(r, worker),
{
    if worker.remaining == 0 {
        WorkerStep::Done(Ok(worker.report))
    } else {
        WorkerStep::AskStop(AwaitStop { worker })
    }
}

/// Begins a supervising worker.
pub fn begin_worker(worker_id: &str, config: OutboxWorkerConfig) -> (r: WorkerStep)
    ensures
        if config.valid_for(worker_id@) {
            between_ticks(
                r,
                (Worker {
                    config,
                    remaining: config.max_ticks,
                    backoff: config.error_backoff,
                    report: WorkerReport::zero(),
                }),
            )
        } else {
            r is Done && unavailable(r->Done_0, "worker id and bounds must be non-empty"@)
        },
{
    if worker_id.is_empty() || config.batch_size == 0 || config.max_ticks == 0
        || config.lease_duration_secs <= 0 || config.max_error_backoff.nanos
        < config.error_backoff.nanos {
        return WorkerStep::Done(
            Err(OutboxError::Unavailable("worker id and bounds must be non-empty".to_owned())),
        );
    }
    let report = WorkerReport {
        ticks: 0,
        delivered: 0,
        retried: 0,
        quarantined: 0,
        transient_errors: 0,
    };
    continue_worker(
        Worker { config, remaining: config.max_ticks, backoff: config.error_backoff, report },
    )
}

/// Waits to know whether to stop.
pub struct AwaitStop {
    worker: Worker,
}

impl AwaitStop {
    #[verifier::type_invariant]
    spec fn consistent(self) -> bool {
        self.worker.remaining > 0 && self.worker.on_schedule()
    }

    /// The worker.
    pub closed spec fn worker(self) -> Worker {
        self.worker
    }

    /// Stops, or starts a tick.
    pub fn resume(self, stop: bool) -> (r: WorkerStep)
        ensures
            if stop {
                r is Done && r->Done_0 == Ok::<WorkerReport, OutboxError>(self.worker().report)
                    && self.worker().report.ticks < self.worker().config.max_ticks
            } else {
                match r {
                    WorkerStep::RunTick(step) => step.worker() == self.worker().ticking(),
                    _ => false,
                }
            },
    {
        proof {
            use_type_invariant(&self);
        }
        let mut worker = self.worker;
        if stop {
            return WorkerStep::Done(Ok(worker.report));
        }
        worker.remaining = worker.remaining - 1;
        worker.report.ticks = worker.report.ticks.saturating_add(1);
        WorkerStep::RunTick(AwaitTick { worker })
    }
}

/// Where a worker goes after a tick: an idle pass and a transient error lead to
/// a delay, a corruption ends the worker, and another pass to the next tick.
/// After a transient error of the last tick the worker ends in that error once
/// the delay has passed.
pub open spec fn after_tick(
    r: WorkerStep,
    worker: Worker,
    tick: Result<DispatchReport, OutboxError>,
) -> bool {
    match tick {
        Ok(report) => {
            let next = Worker {
                backoff: worker.config.error_backoff,
                report: WorkerReport {
                    delivered: sat(worker.report.delivered, report.delivered),
                    retried: sat(worker.report.retried, report.retried),
                    quarantined: sat(worker.report.quarantined, report.quarantined),
                    ..worker.report
                },
                ..worker
            };
            if report == DispatchReport::zero() {
                match r {
                    WorkerStep::Sleep(step) => step.worker() == next && step.delay()
                        == worker.config.idle_backoff && step.failure() is None,
                    _ => false,
                }
            } else {
                between_ticks(r, next)
            }
        },
        Err(error) => if error is Unavailable {
            match r {
                WorkerStep::Sleep(step) => step.delay() == worker.backoff
                    && step.worker() == worker.failed() && step.failure() == (
                if worker.remaining == 0 {
                    Some(error)
                } else {
                    None
                }),
                _ => false,
            }
        } else {
            r is Done && r->Done_0 == Err::<WorkerReport, OutboxError>(error)
        },
    }
}

/// Waits for the result of one dispatch pass.
pub struct AwaitTick {
    worker: Worker,
}

impl AwaitTick {
    #[verifier::type_invariant]
    spec fn consistent(self) -> bool {
        self.worker.on_schedule()
    }

    /// The worker.
    pub closed spec fn worker(self) -> Worker {
        self.worker
    }

    /// The most rows to claim.
    pub fn batch_size(&self) -> (r: usize)
        ensures
            r == self.worker().config.batch_size,
    {
        self.worker.config.batch_size
    }

    /// What happens to corrupt rows.
    pub fn poison_policy(&self) -> (r: PoisonPolicy)
        ensures
            r == self.worker().config.poison_policy,
    {
        self.worker.config.poison_policy
    }

    /// When the lease of a claim made now ends.
    pub fn lease_until(&self, now_unix: i64) -> (r: i64)
        ensures
            r == if now_unix + self.worker().config.lease_duration_secs > i64::MAX {
                i64::MAX as int
            } else if now_unix + self.worker().config.lease_duration_secs < i64::MIN {
                i64::MIN as int
            } else {
                now_unix + self.worker().config.lease_duration_secs
            },
    {
        match now_unix.checked_add(self.worker.config.lease_duration_secs) {
            Some(until) => until,
            None => if self.worker.config.lease_duration_secs > 0 {
                i64::MAX
            } else {
                i64::MIN
            },
        }
    }

    /// Counts the pass. An idle pass and a transient error lead to a delay; a
    /// corruption ends the worker. After a transient error of the last tick the
    /// worker ends in that error once the delay has passed.
    pub fn resume(self, tick: Result<DispatchReport, OutboxError>) -> (r: WorkerStep)
        ensures
            after_tick(r, self.worker(), tick),
    {
        proof {
            use_type_invariant(&self);
        }
        let mut worker = self.worker;
        match tick {
            Ok(report) => {
                worker.report.delivered = worker.report.delivered.saturating_add(report.delivered);
                worker.report.retried = worker.report.retried.saturating_add(report.retried);
                worker.report.quarantined = worker.report.quarantined.saturating_add(
                    report.quarantined,
                );
                worker.backoff = worker.config.error_backoff;
                if report.delivered == 0 && report.retried == 0 && report.quarantined == 0 {
                    WorkerStep::Sleep(
                        AwaitSleep { worker, delay: worker.config.idle_backoff, failure: None },
                    )
                } else {
                    continue_worker(worker)
                }
            },
            Err(error) => {
                if !error.is_retryable() {
                    return WorkerStep::Done(Err(error));
                }
                let delay = worker.backoff;
                worker.report.transient_errors = worker.report.transient_errors.saturating_add(1);
                let longest: u128 = worker.config.max_error_backoff.nanos;
                let nanos: u128 = match delay.nanos.checked_mul(2) {
                    Some(doubled) => if doubled <= longest {
                        doubled
                    } else {
                        longest
                    },
                    None => longest,
                };
                worker.backoff = Delay { nanos };
                let failure = if worker.remaining == 0 {
                    Some(error)
                } else {
                    None
                };
                WorkerStep::Sleep(AwaitSleep { worker, delay, failure })
            },
        }
    }
}

/// Waits for a delay to pass.
pub struct AwaitSleep {
    worker: Worker,
    delay: Delay,
    failure: Option<OutboxError>,
}

impl AwaitSleep {
    #[verifier::type_invariant]
    spec fn consistent(self) -> bool {
        self.worker.on_schedule()
    }

    /// The worker.
    pub closed spec fn worker(self) -> Worker {
        self.worker
    }

    /// The delay.
    pub closed spec fn delay(self) -> Delay {
        self.delay
    }

    /// The error that the worker ends in after the delay, if it does.
    pub closed spec fn failure(self) -> Option<OutboxError> {
        self.failure
    }

    /// How long to wait.
    pub fn duration(&self) -> (r: Delay)
        ensures
            r == self.delay(),
    {
        self.delay
    }

    /// Goes on to the next tick, or ends in the error of the last one.
    pub fn resume(self) -> (r: WorkerStep)
        ensures
            match self.failure() {
                Some(error) => r is Done && r->Done_0 == Err::<WorkerReport, OutboxError>(error),
                None => between_ticks(r, self.worker()),
            },
    {
        proof {
            use_type_invariant(&self);
        }
        match self.failure {
            Some(error) => WorkerStep::Done(Err(error)),
            None => continue_worker(self.worker),
        }
    }
}

/// Delays after transient errors never shrink and never exceed the longest.
pub proof fn law_backoff_is_bounded(current: u128, longest: u128)
    requires
        current <= longest,
    ensures
        current <= next_backoff(current, longest) <= longest,
{
}

/// After each of several transient errors in a row the delay is twice the one
/// before, up to the longest: the delay after the next error is the first one
/// doubled as often as there were errors.
pub proof fn law_errors_in_a_row_double_the_delay(worker: Worker, n: nat)
    requires
        worker.backoff.nanos <= worker.config.max_error_backoff.nanos,
    ensures
        worker.failing(n).config == worker.config,
        worker.failing(n).ticking().backoff == worker.failing(n).backoff,
        worker.failing(n).backoff.nanos == ({
            let doubled = worker.backoff.nanos * pow2(n);
            let longest = worker.config.max_error_backoff.nanos as int;
            if doubled <= longest {
                doubled
            } else {
                longest
            }
        }),
    decreases n,
{
    if n == 0 {
        lemma2_to64();
        assert(worker.backoff.nanos * pow2(0) == worker.backoff.nanos) by (nonlinear_arith)
            requires
                pow2(0) == 1,
        ;
    } else {
        let before = (n - 1) as nat;
        law_errors_in_a_row_double_the_delay(worker, before);
        lemma_pow2_unfold(n);
        let first = worker.backoff.nanos as int;
        let half = pow2(before) as int;
        assert(first * (2 * half) == 2 * (first * half)) by (nonlinear_arith);
        assert(first * half >= 0) by (nonlinear_arith)
            requires
                first >= 0,
                half >= 0,
        ;
    }
}

// ---------------------------------------------------------------------------
// Consumers.
// ---------------------------------------------------------------------------
/// Where a consumption stands: paused for outside work, or done.
pub enum ConsumeStep {
    /// Needs the delivery key claimed.
    Claim(AwaitDeliveryClaim),
    /// Needs the delivery applied.
    Apply(AwaitApply),
    /// Needs the claim released after the application failed.
    Release(AwaitDeliveryRelease),
    /// Needs the delivery marked applied.
    MarkApplied(AwaitApplied),
    /// Finished: whether the delivery was applied now.
    Done(Result<bool, OutboxError>),
}

/// Where a consumption goes once the claim is answered: a new delivery is
/// applied, one that was applied before is acknowledged.
pub open spec fn after_claim(
    r: ConsumeStep,
    claim: Result<ConsumerDeliveryClaim, OutboxError>,
) -> bool {
    match claim {
        Err(error) => r is Done && r->Done_0 == Err::<bool, OutboxError>(error),
        Ok(ConsumerDeliveryClaim::AlreadyApplied) => r is Done && r->Done_0 == Ok::<
            bool,
            OutboxError,
        >(false),
        Ok(ConsumerDeliveryClaim::InProgress { .. }) => r is Done && unavailable(
            r->Done_0,
            "consumer delivery is already in progress"@,
        ),
        Ok(ConsumerDeliveryClaim::New { attempt_id }) => match r {
            ConsumeStep::Apply(step) => step.attempt() == attempt_id@,
            _ => false,
        },
    }
}

/// Where a consumption goes after the application of an attempt.
pub open spec fn after_application(
    r: ConsumeStep,
    attempt: Seq<char>,
    applied: Result<(), String>,
) -> bool {
    match applied {
        Ok(()) => match r {
            ConsumeStep::MarkApplied(step) => step.attempt() == attempt,
            _ => false,
        },
        Err(error) => match r {
            ConsumeStep::Release(step) => step.attempt() == attempt && step.error() == error@,
            _ => false,
        },
    }
}

/// How a consumption ends after the release of a claim whose application
/// failed.
pub open spec fn after_release(
    r: ConsumeStep,
    error: Seq<char>,
    released: Result<(), OutboxError>,
) -> bool {
    match released {
        Err(failure) => r is Done && r->Done_0 == Err::<bool, OutboxError>(failure),
        Ok(()) => r is Done && unavailable(r->Done_0, error),
    }
}

/// How a consumption ends once its application is to be recorded.
pub open spec fn after_mark(r: ConsumeStep, marked: Result<(), OutboxError>) -> bool {
    match marked {
        Ok(()) => r is Done && r->Done_0 == Ok::<bool, OutboxError>(true),
        Err(error) => r is Done && r->Done_0 == Err::<bool, OutboxError>(error),
    }
}

/// Begins the consumption of a delivery.
pub fn begin_consume(delivery_key: &str, lease_until_unix: i64, now_unix: i64) -> (r: ConsumeStep)
    ensures
        if delivery_key@.len() == 0 {
            r is Done && unavailable(r->Done_0, "consumer delivery key must not be empty"@)
        } else if lease_until_unix <= now_unix {
            r is Done && unavailable(r->Done_0, "consumer lease expiration must be in the future"@)
        } else {
            r is Claim
        },
{
    if delivery_key.is_empty() {
        return ConsumeStep::Done(
            Err(OutboxError::Unavailable("consumer delivery key must not be empty".to_owned())),
        );
    }
    if lease_until_unix <= now_unix {
        return ConsumeStep::Done(
            Err(
                OutboxError::Unavailable(
                    "consumer lease expiration must be in the future".to_owned(),
                ),
            ),
        );
    }
    ConsumeStep::Claim(AwaitDeliveryClaim {  })
}

/// Waits for the claim of a delivery key.
pub struct AwaitDeliveryClaim {}

impl AwaitDeliveryClaim {
    /// Applies a new delivery; acknowledges one that was applied before
    /// without applying it again.
    pub fn resume(self, claim: Result<ConsumerDeliveryClaim, OutboxError>) -> (r: ConsumeStep)
        ensures
            after_claim(r, claim),
    {
        match claim {
            Err(error) => ConsumeStep::Done(Err(error)),
            Ok(ConsumerDeliveryClaim::AlreadyApplied) => ConsumeStep::Done(Ok(false)),
            Ok(ConsumerDeliveryClaim::InProgress { .. }) => ConsumeStep::Done(
                Err(
                    OutboxError::Unavailable("consumer delivery is already in progress".to_owned()),
                ),
            ),
            Ok(ConsumerDeliveryClaim::New { attempt_id }) => ConsumeStep::Apply(
                AwaitApply { attempt_id },
            ),
        }
    }
}

/// Waits for the application of a delivery.
pub struct AwaitApply {
    attempt_id: String,
}

impl AwaitApply {
    /// The attempt.
    pub closed spec fn attempt(self) -> Seq<char> {
        self.attempt_id@
    }

    /// Records a success; releases the claim after a failure.
    pub fn resume(self, applied: Result<(), String>) -> (r: ConsumeStep)
        ensures
            after_application(r, self.attempt(), applied),
    {
        match applied {
            Ok(()) => ConsumeStep::MarkApplied(AwaitApplied { attempt_id: self.attempt_id }),
            Err(error) => ConsumeStep::Release(
                AwaitDeliveryRelease { attempt_id: self.attempt_id, error },
            ),
        }
    }
}

/// Waits for the release of a claim whose application failed.
pub struct AwaitDeliveryRelease {
    attempt_id: String,
    error: String,
}

impl AwaitDeliveryRelease {
    /// The attempt.
    pub closed spec fn attempt(self) -> Seq<char> {
        self.attempt_id@
    }

    /// Why the application failed.
    pub closed spec fn error(self) -> Seq<char> {
        self.error@
    }

    /// The attempt to release.
    pub fn attempt_id(&self) -> (r: &str)
        ensures
            r@ == self.attempt(),
    {
        self.attempt_id.as_str()
    }

    /// Why it is released.
    pub fn reason(&self) -> (r: &str)
        ensures
            r@ == self.error(),
    {
        self.error.as_str()
    }

    /// Reports the failure: that of the release, else that of the application.
    pub fn resume(self, released: Result<(), OutboxError>) -> (r: ConsumeStep)
        ensures
            after_release(r, self.error(), released),
    {
        match released {
            Err(error) => ConsumeStep::Done(Err(error)),
            Ok(()) => ConsumeStep::Done(Err(OutboxError::Unavailable(self.error))),
        }
    }
}

/// Waits for a delivery to be marked applied.
pub struct AwaitApplied {
    attempt_id: String,
}

impl AwaitApplied {
    /// The attempt.
    pub closed spec fn attempt(self) -> Seq<char> {
        self.attempt_id@
    }

    /// The attempt to mark.
    pub fn attempt_id(&self) -> (r: &str)
        ensures
            r@ == self.attempt(),
    {
        self.attempt_id.as_str()
    }

    /// Succeeds only once the application is recorded.
    pub fn resume(self, marked: Result<(), OutboxError>) -> (r: ConsumeStep)
        ensures
            after_mark(r, marked),
    {
        match marked {
            Ok(()) => ConsumeStep::Done(Ok(true)),
            Err(error) => ConsumeStep::Done(Err(error)),
        }
    }
}

/// The stable delivery key of a commit.
pub fn commit_delivery_key(tenant: &TenantId, commit_id: &CommitId) -> (r: String)
    ensures
        r@ == "commit:"@ + tenant.0@ + ":"@ + commit_id.0@,
{
    let mut key = join3("commit:", tenant.as_str(), ":");
    key.append(commit_id.as_str());
    key
}

} // verus!
