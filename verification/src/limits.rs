//! Size bounds. Their values are this library's own.
use vstd::prelude::*;

verus! {

/// The largest canonical intent, in bytes.
pub const MAX_INTENT_BYTES: usize = 65536;

/// The longest identifier, in characters.
pub const MAX_ID_LENGTH: usize = 256;

/// The deepest nesting of an operation input.
pub const MAX_JSON_DEPTH: usize = 32;

/// The longest quota key, in bytes.
pub const MAX_QUOTA_KEY_BYTES: usize = 512;

} // verus!
