//! Keys of the anchored chain, by which a message names its sender.

use crate::bytes::copy_bytes;
use vstd::prelude::*;

verus! {

/// The number of bytes of a public key of the anchored chain.
pub const PUBLIC_KEY_LENGTH: usize = 32;

/// A public key of the anchored chain.
#[derive(Debug, PartialEq, Eq)]
pub struct PublicKey {
    bytes: Vec<u8>,
}

impl View for PublicKey {
    type V = Seq<u8>;

    closed spec fn view(&self) -> Seq<u8> {
        self.bytes@
    }
}

impl PublicKey {
    #[verifier::type_invariant]
    spec fn has_key_length(self) -> bool {
        self.bytes@.len() == PUBLIC_KEY_LENGTH
    }

    /// The key made of the given bytes, if there are 32 of them.
    pub fn from_bytes(bytes: Vec<u8>) -> (key: Option<PublicKey>)
        ensures
            match key {
                Some(k) => bytes@.len() == PUBLIC_KEY_LENGTH && k@ == bytes@,
                None => bytes@.len() != PUBLIC_KEY_LENGTH,
            },
    {
        if bytes.len() == PUBLIC_KEY_LENGTH {
            Some(PublicKey { bytes })
        } else {
            None
        }
    }

    /// The key made of the 32 bytes of `bytes`.
    pub(crate) fn from_slice(bytes: &[u8]) -> (key: PublicKey)
        requires
            bytes@.len() == PUBLIC_KEY_LENGTH,
        ensures
            key@ == bytes@,
    {
        PublicKey { bytes: copy_bytes(bytes) }
    }

    /// The 32 bytes of the key.
    pub fn as_bytes(&self) -> (bytes: &[u8])
        ensures
            bytes@ == self@,
            bytes@.len() == PUBLIC_KEY_LENGTH,
    {
        proof {
            use_type_invariant(self);
        }
        self.bytes.as_slice()
    }
}

impl Clone for PublicKey {
    fn clone(&self) -> (copy: PublicKey)
        ensures
            copy@ == self@,
            copy@.len() == PUBLIC_KEY_LENGTH,
    {
        proof {
            use_type_invariant(self);
        }
        PublicKey { bytes: copy_bytes(self.bytes.as_slice()) }
    }
}

} // verus!
