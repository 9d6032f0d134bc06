//! Aggregation of delegated-authority evaluations.
//!
//! Every configured authority is asked. The verdicts combine under the
//! profile's policy: all must allow, or one allowing authority is enough. The
//! bound proof is dated by its oldest evaluation.
use vstd::prelude::*;

use crate::domain::digest::ContentDigest;
use crate::domain::intent::{
    AggregationPolicy, AuthorityProof, EvaluationResult, TrustGrantOutcome,
    TRUSTGRANT_EVALUATION_KIND,
};
use crate::domain::time::Timestamp;
use crate::executor::error::ExecutorError;
use crate::ports::errors::TrustGrantError;

verus! {

/// Whether an evaluation allows the operation.
pub open spec fn allows(reply: Result<TrustGrantOutcome, TrustGrantError>) -> bool {
    reply is Ok && reply->Ok_0.result == EvaluationResult::Allow
}

/// Whether an evaluation denies the operation.
pub open spec fn denies(reply: Result<TrustGrantOutcome, TrustGrantError>) -> bool {
    (reply is Ok && reply->Ok_0.result != EvaluationResult::Allow) || reply == Err::<
        TrustGrantOutcome,
        TrustGrantError,
    >(TrustGrantError::Denied)
}

/// The allowing outcomes among evaluations, in order.
pub open spec fn allowed(replies: Seq<Result<TrustGrantOutcome, TrustGrantError>>) -> Seq<
    TrustGrantOutcome,
>
    decreases replies.len(),
{
    if replies.len() == 0 {
        Seq::empty()
    } else {
        let rest = allowed(replies.drop_last());
        if allows(replies.last()) {
            rest.push(replies.last()->Ok_0)
        } else {
            rest
        }
    }
}

/// Whether some evaluation denies.
pub open spec fn any_denied(replies: Seq<Result<TrustGrantOutcome, TrustGrantError>>) -> bool {
    exists|i: int| 0 <= i < replies.len() && denies(#[trigger] replies[i])
}

/// Whether some evaluation is stale.
pub open spec fn any_stale(replies: Seq<Result<TrustGrantOutcome, TrustGrantError>>) -> bool {
    exists|i: int|
        0 <= i < replies.len() && #[trigger] replies[i] == Err::<
            TrustGrantOutcome,
            TrustGrantError,
        >(TrustGrantError::Stale)
}

/// The complaint of the last authority that could not be reached.
pub open spec fn unavailable_in(replies: Seq<Result<TrustGrantOutcome, TrustGrantError>>) -> Option<
    String,
>
    decreases replies.len(),
{
    if replies.len() == 0 {
        None
    } else {
        match replies.last() {
            Err(TrustGrantError::Unavailable(message)) => Some(message),
            _ => unavailable_in(replies.drop_last()),
        }
    }
}

/// Whether evaluations pass under a policy.
pub open spec fn passes(
    policy: AggregationPolicy,
    replies: Seq<Result<TrustGrantOutcome, TrustGrantError>>,
) -> bool {
    match policy {
        AggregationPolicy::RequireAll => forall|i: int|
            0 <= i < replies.len() ==> allows(#[trigger] replies[i]),
        AggregationPolicy::AnyOf => exists|i: int|
            0 <= i < replies.len() && allows(#[trigger] replies[i]),
    }
}

/// The report of evaluations that do not pass: an unreachable authority comes
/// before a stale one, and a stale one before a denial.
pub open spec fn failure_report(
    replies: Seq<Result<TrustGrantOutcome, TrustGrantError>>,
) -> ExecutorError {
    match unavailable_in(replies) {
        Some(message) => ExecutorError::AuthorityUnavailable(message),
        None => if any_stale(replies) {
            ExecutorError::AuthorityStale
        } else {
            ExecutorError::AuthorityDenied
        },
    }
}

/// Whether an instant is the oldest evaluation among outcomes.
pub open spec fn oldest(outcomes: Seq<TrustGrantOutcome>, at: Timestamp) -> bool {
    (exists|i: int| 0 <= i < outcomes.len() && (#[trigger] outcomes[i]).evaluated_at == at)
        && forall|i: int|
        0 <= i < outcomes.len() ==> !(#[trigger] outcomes[i]).evaluated_at.precedes(at)
}

/// The running result of asking authorities.
pub struct Tally {
    outcomes: Vec<TrustGrantOutcome>,
    denied: bool,
    stale: bool,
    unavailable: Option<String>,
    asked: usize,
    replies: Ghost<Seq<Result<TrustGrantOutcome, TrustGrantError>>>,
}

impl Tally {
    #[verifier::type_invariant]
    spec fn consistent(self) -> bool {
        &&& self.asked == self.replies@.len()
        &&& self.outcomes@ == allowed(self.replies@)
        &&& self.denied == any_denied(self.replies@)
        &&& self.stale == any_stale(self.replies@)
        &&& self.unavailable == unavailable_in(self.replies@)
    }

    /// The replies so far.
    pub closed spec fn replies(self) -> Seq<Result<TrustGrantOutcome, TrustGrantError>> {
        self.replies@
    }

    /// No authority asked yet.
    pub fn new() -> (r: Self)
        ensures
            r.replies() == Seq::<Result<TrustGrantOutcome, TrustGrantError>>::empty(),
    {
        Tally {
            outcomes: Vec::new(),
            denied: false,
            stale: false,
            unavailable: None,
            asked: 0,
            replies: Ghost(Seq::empty()),
        }
    }

    /// The number of authorities asked.
    pub fn asked(&self) -> (r: usize)
        ensures
            r == self.replies().len(),
    {
        proof {
            use_type_invariant(self);
        }
        self.asked
    }

    /// Records one more reply.
    pub fn record(self, reply: Result<TrustGrantOutcome, TrustGrantError>) -> (r: Self)
        requires
            self.replies().len() < usize::MAX,
        ensures
            r.replies() == self.replies().push(reply),
    {
        proof {
            use_type_invariant(&self);
        }
        let ghost before = self.replies@;
        let ghost after = before.push(reply);
        let Tally { outcomes, denied, stale, unavailable, asked, replies } = self;
        let mut outcomes = outcomes;
        let mut denied = denied;
        let mut stale = stale;
        let mut unavailable = unavailable;
        proof {
            assert(after.drop_last() =~= before);
            assert(after.last() == reply);
            assert forall|i: int| 0 <= i < before.len() implies #[trigger] after[i] == before[i] by {
            }
            assert(after[before.len() as int] == reply);
            assert(any_denied(after) <==> any_denied(before) || denies(reply)) by {
                if any_denied(before) {
                    let i = choose|i: int| 0 <= i < before.len() && denies(#[trigger] before[i]);
                    assert(denies(after[i]));
                }
                if any_denied(after) && !denies(reply) {
                    let i = choose|i: int| 0 <= i < after.len() && denies(#[trigger] after[i]);
                    assert(denies(before[i]));
                }
            }
            let stale_reply = Err::<TrustGrantOutcome, TrustGrantError>(TrustGrantError::Stale);
            assert(any_stale(after) <==> any_stale(before) || reply == stale_reply) by {
                if any_stale(before) {
                    let i = choose|i: int|
                        0 <= i < before.len() && #[trigger] before[i] == stale_reply;
                    assert(after[i] == stale_reply);
                }
                if any_stale(after) && reply != stale_reply {
                    let i = choose|i: int|
                        0 <= i < after.len() && #[trigger] after[i] == stale_reply;
                    assert(before[i] == stale_reply);
                }
            }
        }
        match reply {
            Ok(outcome) => {
                match outcome.result {
                    EvaluationResult::Allow => {
                        outcomes.push(outcome);
                    },
                    EvaluationResult::Deny => {
                        denied = true;
                    },
                }
            },
            Err(TrustGrantError::Denied) => {
                denied = true;
            },
            Err(TrustGrantError::Stale) => {
                stale = true;
            },
            Err(TrustGrantError::Unavailable(message)) => {
                unavailable = Some(message);
            },
        }
        Tally { outcomes, denied, stale, unavailable, asked: asked + 1, replies: Ghost(after) }
    }

    /// Combines the replies under a policy: the allowing outcomes, or why the
    /// evaluations do not pass.
    pub fn conclude(self, policy: AggregationPolicy) -> (r: Result<
        Vec<TrustGrantOutcome>,
        ExecutorError,
    >)
        ensures
            match r {
                Ok(outcomes) => passes(policy, self.replies()) && outcomes@ == allowed(
                    self.replies(),
                ),
                Err(error) => !passes(policy, self.replies()) && error == failure_report(
                    self.replies(),
                ),
            },
    {
        proof {
            use_type_invariant(&self);
            lemma_all_allow(self.replies@);
            lemma_some_allow(self.replies@);
        }
        let pass = match policy {
            AggregationPolicy::RequireAll => !self.denied && !self.stale
                && self.unavailable.is_none(),
            AggregationPolicy::AnyOf => self.outcomes.len() > 0,
        };
        if pass {
            return Ok(self.outcomes);
        }
        match self.unavailable {
            Some(message) => Err(ExecutorError::AuthorityUnavailable(message)),
            None => {
                if self.stale {
                    Err(ExecutorError::AuthorityStale)
                } else {
                    Err(ExecutorError::AuthorityDenied)
                }
            },
        }
    }
}

/// All evaluations allow exactly when none denies, is stale or unreachable.
proof fn lemma_all_allow(replies: Seq<Result<TrustGrantOutcome, TrustGrantError>>)
    ensures
        (forall|i: int| 0 <= i < replies.len() ==> allows(#[trigger] replies[i])) <==> !any_denied(
            replies,
        ) && !any_stale(replies) && unavailable_in(replies) is None,
    decreases replies.len(),
{
    lemma_unavailable(replies);
    if forall|i: int| 0 <= i < replies.len() ==> allows(#[trigger] replies[i]) {
        assert(!any_denied(replies));
        assert(!any_stale(replies));
    } else {
        let i = choose|i: int| 0 <= i < replies.len() && !allows(#[trigger] replies[i]);
        match replies[i] {
            Ok(_) => {
                assert(denies(replies[i]));
            },
            Err(TrustGrantError::Denied) => {
                assert(denies(replies[i]));
            },
            Err(TrustGrantError::Stale) => {
                assert(any_stale(replies));
            },
            Err(TrustGrantError::Unavailable(_)) => {},
        }
    }
}

/// There is a complaint exactly when some authority was unreachable.
proof fn lemma_unavailable(replies: Seq<Result<TrustGrantOutcome, TrustGrantError>>)
    ensures
        unavailable_in(replies) is Some <==> exists|i: int|
            0 <= i < replies.len() && (#[trigger] replies[i] matches Err(
                TrustGrantError::Unavailable(_),
            )),
    decreases replies.len(),
{
    if replies.len() > 0 {
        let rest = replies.drop_last();
        lemma_unavailable(rest);
        if replies.last() matches Err(TrustGrantError::Unavailable(_)) {
            assert(replies[replies.len() - 1] matches Err(TrustGrantError::Unavailable(_)));
        } else {
            if unavailable_in(rest) is Some {
                let i = choose|i: int|
                    0 <= i < rest.len() && (#[trigger] rest[i] matches Err(
                        TrustGrantError::Unavailable(_),
                    ));
                assert(replies[i] matches Err(TrustGrantError::Unavailable(_)));
            }
            if exists|i: int|
                0 <= i < replies.len() && (#[trigger] replies[i] matches Err(
                    TrustGrantError::Unavailable(_),
                )) {
                let i = choose|i: int|
                    0 <= i < replies.len() && (#[trigger] replies[i] matches Err(
                        TrustGrantError::Unavailable(_),
                    ));
                assert(rest[i] == replies[i]);
            }
        }
    }
}

/// There is an allowing outcome exactly when some evaluation allows; there
/// are as many outcomes as replies when all do.
proof fn lemma_some_allow(replies: Seq<Result<TrustGrantOutcome, TrustGrantError>>)
    ensures
        allowed(replies).len() > 0 <==> exists|i: int|
            0 <= i < replies.len() && allows(#[trigger] replies[i]),
        allowed(replies).len() <= replies.len(),
        (forall|i: int| 0 <= i < replies.len() ==> allows(#[trigger] replies[i])) ==> allowed(
            replies,
        ).len() == replies.len(),
    decreases replies.len(),
{
    if replies.len() > 0 {
        let rest = replies.drop_last();
        lemma_some_allow(rest);
        assert forall|i: int| 0 <= i < rest.len() implies #[trigger] rest[i] == replies[i] by {
        }
        if allows(replies.last()) {
            assert(allows(replies[replies.len() - 1]));
        } else if exists|i: int| 0 <= i < replies.len() && allows(#[trigger] replies[i]) {
            let i = choose|i: int| 0 <= i < replies.len() && allows(#[trigger] replies[i]);
            assert(allows(rest[i]));
        }
        if exists|i: int| 0 <= i < rest.len() && allows(#[trigger] rest[i]) {
            let i = choose|i: int| 0 <= i < rest.len() && allows(#[trigger] rest[i]);
            assert(allows(replies[i]));
        }
    }
}

/// Passing evaluations of at least one authority leave an allowing outcome.
pub proof fn law_passing_leaves_an_outcome(
    policy: AggregationPolicy,
    replies: Seq<Result<TrustGrantOutcome, TrustGrantError>>,
)
    requires
        replies.len() > 0,
        passes(policy, replies),
    ensures
        allowed(replies).len() > 0,
{
    lemma_some_allow(replies);
    if policy == AggregationPolicy::RequireAll {
        assert(allows(replies[0]));
    }
}

/// What passes when all must allow also passes when one is enough.
pub proof fn law_require_all_is_stricter(
    replies: Seq<Result<TrustGrantOutcome, TrustGrantError>>,
)
    requires
        replies.len() > 0,
        passes(AggregationPolicy::RequireAll, replies),
    ensures
        passes(AggregationPolicy::AnyOf, replies),
{
    assert(allows(replies[0]));
}

/// Whether evaluations pass does not depend on the order of the authorities.
pub proof fn law_order_of_authorities_does_not_matter(
    policy: AggregationPolicy,
    a: Seq<Result<TrustGrantOutcome, TrustGrantError>>,
    b: Seq<Result<TrustGrantOutcome, TrustGrantError>>,
)
    requires
        a.to_multiset() == b.to_multiset(),
    ensures
        passes(policy, a) == passes(policy, b),
{
    broadcast use vstd::seq_lib::group_to_multiset_ensures;

    assert forall|x: Result<TrustGrantOutcome, TrustGrantError>|
        a.contains(x) <==> b.contains(x) by {
        assert(a.to_multiset().count(x) > 0 <==> a.contains(x));
        assert(b.to_multiset().count(x) > 0 <==> b.contains(x));
    }
    if passes(policy, a) && !passes(policy, b) {
        if policy == AggregationPolicy::RequireAll {
            let i = choose|i: int| 0 <= i < b.len() && !allows(#[trigger] b[i]);
            assert(b.contains(b[i]));
            assert(a.contains(b[i]));
        } else {
            let i = choose|i: int| 0 <= i < a.len() && allows(#[trigger] a[i]);
            assert(a.contains(a[i]));
            assert(b.contains(a[i]));
            let j = choose|j: int| 0 <= j < b.len() && b[j] == a[i];
            assert(allows(b[j]));
        }
    }
    if passes(policy, b) && !passes(policy, a) {
        if policy == AggregationPolicy::RequireAll {
            let i = choose|i: int| 0 <= i < a.len() && !allows(#[trigger] a[i]);
            assert(a.contains(a[i]));
            assert(b.contains(a[i]));
        } else {
            let i = choose|i: int| 0 <= i < b.len() && allows(#[trigger] b[i]);
            assert(b.contains(b[i]));
            assert(a.contains(b[i]));
            let j = choose|j: int| 0 <= j < a.len() && a[j] == b[i];
            assert(allows(a[j]));
        }
    }
}

/// The oldest evaluation among outcomes.
pub fn oldest_evaluation(outcomes: &Vec<TrustGrantOutcome>) -> (r: Timestamp)
    requires
        outcomes@.len() > 0,
    ensures
        oldest(outcomes@, r),
{
    let mut at: Timestamp = outcomes[0].evaluated_at;
    let mut i: usize = 1;
    assert(outcomes@[0].evaluated_at == at);
    while i < outcomes.len()
        invariant
            1 <= i <= outcomes@.len(),
            exists|k: int| 0 <= k < i && (#[trigger] outcomes@[k]).evaluated_at == at,
            forall|k: int| 0 <= k < i ==> !(#[trigger] outcomes@[k]).evaluated_at.precedes(at),
        decreases outcomes@.len() - i,
    {
        if outcomes[i].evaluated_at.before(&at) {
            at = outcomes[i].evaluated_at;
            assert(outcomes@[i as int].evaluated_at == at);
        }
        i = i + 1;
    }
    at
}

/// Whether a proof is the one that binds outcomes under an aggregate digest.
pub open spec fn binds(
    bound: AuthorityProof,
    outcomes: Seq<TrustGrantOutcome>,
    digest: ContentDigest,
) -> bool {
    bound.kind@ == TRUSTGRANT_EVALUATION_KIND@ && bound.evaluation_digest == digest
        && bound.result == EvaluationResult::Allow && oldest(outcomes, bound.evaluated_at)
}

/// The proof that binds allowing outcomes under their aggregate digest.
pub fn bind_authority(outcomes: &Vec<TrustGrantOutcome>, digest: ContentDigest) -> (r:
    AuthorityProof)
    requires
        outcomes@.len() > 0,
    ensures
        binds(r, outcomes@, digest),
{
    AuthorityProof {
        kind: TRUSTGRANT_EVALUATION_KIND.to_owned(),
        evaluation_digest: digest,
        result: EvaluationResult::Allow,
        evaluated_at: oldest_evaluation(outcomes),
    }
}

} // verus!
