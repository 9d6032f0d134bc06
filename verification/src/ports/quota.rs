//! Quotas that several workers share.
//!
//! A charge is checked here before it goes to the shared provider. A charge
//! over several dimensions counts each dimension once and names them in text
//! order, whatever the caller's order.
use vstd::prelude::*;
use vstd::string::StringSliceAdditionalSpecFns;

use crate::amount::{decimal, decimal_text};
use crate::limits::MAX_QUOTA_KEY_BYTES;
use crate::text::{increasing, insert_sorted, join2, join3, texts};

verus! {

/// A refused or failed quota charge.
#[derive(Debug, Clone, PartialEq, Eq)]
pub enum QuotaError {
    /// The shared quota cannot be reached; callers fail closed.
    Unavailable(String),
    /// The request is malformed.
    Invalid(String),
    /// The provider lacks the operation.
    Unsupported(String),
}

/// A provider's answer to a charge.
#[derive(Debug, Clone, Copy, PartialEq, Eq)]
pub struct RateLimitDecision {
    /// Whether the charge was accepted.
    pub allowed: bool,
    /// What is left.
    pub remaining: u64,
    /// When to try again, in milliseconds.
    pub retry_after_ms: u64,
}

impl QuotaError {
    /// The rendering of the error.
    pub open spec fn text(self) -> Seq<char> {
        match self {
            QuotaError::Unavailable(m) => "distributed quota unavailable: "@ + m@,
            QuotaError::Invalid(m) => "distributed quota request invalid: "@ + m@,
            QuotaError::Unsupported(m) => "distributed quota operation unsupported: "@ + m@,
        }
    }

    /// Renders the error.
    pub fn message(&self) -> (r: String)
        ensures
            r@ == self.text(),
    {
        match self {
            QuotaError::Unavailable(m) => join2("distributed quota unavailable: ", m.as_str()),
            QuotaError::Invalid(m) => join2("distributed quota request invalid: ", m.as_str()),
            QuotaError::Unsupported(m) => join2(
                "distributed quota operation unsupported: ",
                m.as_str(),
            ),
        }
    }

    /// Whether the same request may succeed when it is made again.
    pub fn is_retryable(&self) -> (r: bool)
        ensures
            r == (self is Unavailable),
    {
        match self {
            QuotaError::Unavailable(_) => true,
            QuotaError::Invalid(_) | QuotaError::Unsupported(_) => false,
        }
    }
}

/// What is wrong with a charge, if anything.
pub open spec fn request_fault(key: &str, cost: u64, now_unix_ms: i64) -> Option<Seq<char>> {
    if key@.len() == 0 {
        Some("quota key must not be empty"@)
    } else if key.spec_bytes().len() > MAX_QUOTA_KEY_BYTES {
        Some("quota key must be at most "@ + decimal(MAX_QUOTA_KEY_BYTES as nat) + " bytes"@)
    } else if cost == 0 {
        Some("quota cost must be positive"@)
    } else if now_unix_ms < 0 {
        Some("quota timestamp must not be negative"@)
    } else {
        None
    }
}

/// Whether a result refuses a request with the given complaint.
pub open spec fn invalid_request<T>(r: Result<T, QuotaError>, complaint: Seq<char>) -> bool {
    match r {
        Err(QuotaError::Invalid(message)) => message@ == complaint,
        _ => false,
    }
}

/// Accepts a well-formed charge.
pub fn validate_request(key: &str, cost: u64, now_unix_ms: i64) -> (r: Result<(), QuotaError>)
    ensures
        match request_fault(key, cost, now_unix_ms) {
            None => r is Ok,
            Some(complaint) => invalid_request(r, complaint),
        },
{
    if key.is_empty() {
        return Err(QuotaError::Invalid("quota key must not be empty".to_owned()));
    }
    if key.as_bytes().len() > MAX_QUOTA_KEY_BYTES {
        let limit = decimal_text(MAX_QUOTA_KEY_BYTES as u128);
        return Err(
            QuotaError::Invalid(join3("quota key must be at most ", limit.as_str(), " bytes")),
        );
    }
    if cost == 0 {
        return Err(QuotaError::Invalid("quota cost must be positive".to_owned()));
    }
    if now_unix_ms < 0 {
        return Err(QuotaError::Invalid("quota timestamp must not be negative".to_owned()));
    }
    Ok(())
}

/// Whether the first malformed key of a charge is at a position.
pub open spec fn first_malformed(keys: Seq<&str>, cost: u64, now_unix_ms: i64, at: int) -> bool {
    0 <= at < keys.len() && request_fault(keys[at], cost, now_unix_ms) is Some && forall|k: int|
        0 <= k < at ==> request_fault(#[trigger] keys[k], cost, now_unix_ms) is None
}

/// The dimensions of a well-formed charge: each once, in text order.
pub fn charge_dimensions(keys: &[&str], cost: u64, now_unix_ms: i64) -> (r: Result<
    Vec<String>,
    QuotaError,
>)
    ensures
        match r {
            Ok(unique) => keys@.len() > 0 && (forall|k: int|
                0 <= k < keys@.len() ==> request_fault(
                    #[trigger] keys@[k],
                    cost,
                    now_unix_ms,
                ) is None) && increasing(texts(unique@)) && (forall|x: Seq<char>|
                #[trigger] texts(unique@).contains(x) <==> exists|k: int|
                    0 <= k < keys@.len() && (#[trigger] keys@[k])@ == x),
            Err(_) => if keys@.len() == 0 {
                invalid_request(r, "quota dimensions must not be empty"@)
            } else {
                exists|at: int| #[trigger]
                    first_malformed(keys@, cost, now_unix_ms, at) && invalid_request(
                        r,
                        request_fault(keys@[at], cost, now_unix_ms)->0,
                    )
            },
        },
{
    if keys.len() == 0 {
        return Err(QuotaError::Invalid("quota dimensions must not be empty".to_owned()));
    }
    let mut i: usize = 0;
    while i < keys.len()
        invariant
            i <= keys@.len(),
            forall|k: int|
                0 <= k < i ==> request_fault(#[trigger] keys@[k], cost, now_unix_ms) is None,
        decreases keys@.len() - i,
    {
        match validate_request(keys[i], cost, now_unix_ms) {
            Ok(()) => {},
            Err(error) => {
                assert(first_malformed(keys@, cost, now_unix_ms, i as int));
                return Err(error);
            },
        }
        i = i + 1;
    }
    let mut unique: Vec<String> = Vec::new();
    let mut j: usize = 0;
    while j < keys.len()
        invariant
            j <= keys@.len(),
            increasing(texts(unique@)),
            forall|x: Seq<char>|
                #[trigger] texts(unique@).contains(x) <==> exists|k: int|
                    0 <= k < j && (#[trigger] keys@[k])@ == x,
        decreases keys@.len() - j,
    {
        let ghost before = texts(unique@);
        insert_sorted(&mut unique, keys[j]);
        proof {
            assert forall|x: Seq<char>| #[trigger] texts(unique@).contains(x) <==> exists|k: int|
                0 <= k < j + 1 && (#[trigger] keys@[k])@ == x by {
                assert(texts(unique@).contains(x) <==> before.contains(x) || x
                    == keys@[j as int]@);
                if x == keys@[j as int]@ {
                    assert(keys@[j as int]@ == x);
                }
            }
        }
        j = j + 1;
    }
    Ok(unique)
}

/// The answer of a provider that cannot charge several dimensions at once.
pub fn unsupported_charge() -> (r: QuotaError)
    ensures
        r is Unsupported,
        r->Unsupported_0@ == "atomic multi-dimension quota is not supported"@,
{
    QuotaError::Unsupported("atomic multi-dimension quota is not supported".to_owned())
}

/// The dimensions of a charge do not depend on the order of the keys, nor on
/// how often a key is given.
pub proof fn law_dimensions_ignore_order_and_repetition(
    a: Seq<Seq<char>>,
    b: Seq<Seq<char>>,
    x: Seq<Seq<char>>,
    y: Seq<Seq<char>>,
)
    requires
        forall|t: Seq<char>| a.contains(t) <==> b.contains(t),
        increasing(x),
        increasing(y),
        forall|t: Seq<char>| #[trigger] x.contains(t) <==> a.contains(t),
        forall|t: Seq<char>| #[trigger] y.contains(t) <==> b.contains(t),
    ensures
        x == y,
{
    crate::text::lemma_increasing_unique(x, y);
}

} // verus!
