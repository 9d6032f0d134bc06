//! Intents as clients submit them.
use vstd::prelude::*;

use crate::domain::intent::AuthorityProof;
use crate::json::{Fields, Value};

verus! {

/// A submitted intent before validation.
///
/// Fields keep their wire form; only the authority proof arrives decoded, or
/// with the decoder's complaint.
#[derive(Debug, Clone, PartialEq, Eq)]
pub struct RawIntent {
    /// The schema identifier.
    pub schema: String,
    /// The tenant scope.
    pub tenant_id: String,
    /// The unique intent id.
    pub intent_id: String,
    /// The requested operation.
    pub operation: String,
    /// The acting subject.
    pub actor: String,
    /// The resource to change.
    pub resource_id: String,
    /// The kind of state, where the profile needs it.
    pub state_type: Option<Value>,
    /// The version that the actor believes to be current.
    pub expected_version: u64,
    /// The operation's inputs; none when the payload has none.
    pub inputs: Fields,
    /// The presented authority proof, or why it does not decode.
    pub authority: Option<Result<AuthorityProof, String>>,
    /// When the intent was made, as RFC 3339 text.
    pub created_at: String,
    /// When the intent expires, if ever, as RFC 3339 text.
    pub expires_at: Option<String>,
    /// Replay protection, as `b64u:` text.
    pub nonce: String,
    /// The detached signature, if any.
    pub signature: Option<RawSignature>,
}

/// A signature block as clients submit it.
#[derive(Debug, Clone, PartialEq, Eq)]
pub struct RawSignature {
    /// The algorithm, such as `ed25519`.
    pub alg: String,
    /// The signing key.
    pub key_id: String,
    /// The signature, as `b64u:` text.
    pub sig: String,
}

} // verus!
