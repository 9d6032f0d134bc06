//! Content digests and signatures.
use vstd::prelude::*;

use crate::domain::ids::KeyId;

verus! {

/// A 32-byte content digest.
#[derive(Debug, Clone, Copy, PartialEq, Eq, PartialOrd, Ord, Hash)]
pub struct ContentDigest {
    /// The digest bytes.
    pub bytes: [u8; 32],
}

impl ContentDigest {
    /// The digest with the given bytes.
    pub fn new(bytes: [u8; 32]) -> (r: Self)
        ensures
            r.bytes == bytes,
    {
        ContentDigest { bytes }
    }

    /// Whether two digests have the same bytes.
    pub fn same(&self, other: &Self) -> (r: bool)
        ensures
            r == (self.bytes@ == other.bytes@),
    {
        let mut i: usize = 0;
        while i < 32
            invariant
                i <= 32,
                forall|k: int| 0 <= k < i ==> self.bytes@[k] == other.bytes@[k],
            decreases 32 - i,
        {
            if self.bytes[i] != other.bytes[i] {
                return false;
            }
            i = i + 1;
        }
        assert(self.bytes@ =~= other.bytes@);
        true
    }
}

/// The supported signature algorithms.
#[derive(Debug, Clone, Copy, PartialEq, Eq, Structural)]
pub enum SignatureAlg {
    /// Ed25519.
    Ed25519,
}

/// The bytes of an Ed25519 signature.
#[derive(Debug, Clone, Copy, PartialEq, Eq)]
pub struct Signature {
    /// The signature bytes.
    pub bytes: [u8; 64],
}

/// A detached signature and the key that made it.
#[derive(Debug, PartialEq, Eq)]
pub struct SignatureBlock {
    /// The algorithm.
    pub alg: SignatureAlg,
    /// The signing key.
    pub key_id: KeyId,
    /// The signature.
    pub sig: Signature,
}

impl Clone for SignatureBlock {
    fn clone(&self) -> (r: Self)
        ensures
            r == *self,
    {
        SignatureBlock { alg: self.alg, key_id: self.key_id.clone(), sig: self.sig }
    }
}

} // verus!
