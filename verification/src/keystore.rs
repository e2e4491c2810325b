//! The keystore, a collection of keys of the `sp_keystore` crate.

use vstd::prelude::*;

use crate::types::{KeyTypeId, ValidatorId, PARACHAIN_KEY_TYPE_ID};

verus! {

/// Holds a shared `sp_keystore::Keystore`.
///
/// Others may add keys to it at any time, so nothing is said of what it holds.
#[verifier::external_body]
pub struct Keystore {
    /// The keystore.
    pub inner: sp_keystore::KeystorePtr,
}

/// Calls `sp_keystore::Keystore::has_keys` for one raw public key and its kind: whether the
/// private key is there. The answer rests on what the keystore holds at that moment, and
/// nothing is said of it.
#[verifier::external_body]
pub(crate) fn has_keys(keystore: &Keystore, key: [u8; 32], kind: KeyTypeId) -> (answer: bool) {
    keystore.inner.has_keys(&[(key.to_vec(), sp_core::crypto::KeyTypeId(kind))])
}

impl Keystore {
    /// Whether `answer` can come back when the keystore is asked for a validator's key, in
    /// its raw form and as a key of the kind of parachain validators.
    pub closed spec fn answers(self, validator: ValidatorId, answer: bool) -> bool {
        call_ensures(has_keys, (&self, validator.0, PARACHAIN_KEY_TYPE_ID), answer)
    }

    /// What the answers are: those that come back for the validator's key.
    pub(crate) proof fn lemma_answers(self, validator: ValidatorId, answer: bool)
        ensures
            self.answers(validator, answer) == call_ensures(
                has_keys,
                (&self, validator.0, PARACHAIN_KEY_TYPE_ID),
                answer,
            ),
    {
    }

    /// Asks the keystore for a validator's key.
    pub fn holds(&self, validator: ValidatorId) -> (answer: bool)
        ensures
            self.answers(validator, answer),
    {
        has_keys(self, validator.0, PARACHAIN_KEY_TYPE_ID)
    }
}

} // verus!
