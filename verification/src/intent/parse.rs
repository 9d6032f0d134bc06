//! The bounds on intent payloads.
//!
//! A payload is measured before it is decoded, so that an oversized one is
//! refused without being read.
use vstd::prelude::*;
use vstd::string::StringSliceAdditionalSpecFns;

use crate::domain::error::check_size;
use crate::intent::error::IntentError;
use crate::intent::raw::RawIntent;
use crate::limits::MAX_INTENT_BYTES;

verus! {

/// Whether a result refuses a payload of the given size.
pub open spec fn size_refused<T>(r: Result<T, IntentError>, actual: nat) -> bool {
    match r {
        Err(IntentError::SizeLimitExceeded { name, limit, actual: a }) => name@ == "intent"@
            && limit == MAX_INTENT_BYTES && a == actual,
        _ => false,
    }
}

/// Accepts a payload that is not too large to be decoded.
pub fn check_payload(payload: &[u8]) -> (r: Result<(), IntentError>)
    ensures
        if payload@.len() <= MAX_INTENT_BYTES {
            r is Ok
        } else {
            size_refused(r, payload@.len())
        },
{
    match check_size("intent", MAX_INTENT_BYTES, payload.len()) {
        Ok(()) => Ok(()),
        Err(failure) => Err(IntentError::from(failure)),
    }
}

/// Accepts a payload text that is not too large to be decoded; its size is
/// that of its bytes.
pub fn check_payload_str(payload: &str) -> (r: Result<(), IntentError>)
    ensures
        if payload.spec_bytes().len() <= MAX_INTENT_BYTES {
            r is Ok
        } else {
            size_refused(r, payload.spec_bytes().len())
        },
{
    check_payload(payload.as_bytes())
}

/// The outcome of decoding a payload: the submitted intent, or the decoder's
/// complaint as an error.
pub fn decoded(outcome: Result<RawIntent, String>) -> (r: Result<RawIntent, IntentError>)
    ensures
        match outcome {
            Ok(raw) => r == Ok::<RawIntent, IntentError>(raw),
            Err(complaint) => r == Err::<RawIntent, IntentError>(
                IntentError::InvalidJson { source: complaint },
            ),
        },
{
    match outcome {
        Ok(raw) => Ok(raw),
        Err(complaint) => Err(IntentError::InvalidJson { source: complaint }),
    }
}

} // verus!
