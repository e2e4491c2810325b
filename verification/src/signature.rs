//! Signed payloads and the check of their signatures.

use vstd::prelude::*;

use crate::types::{BlockHash, SessionIndex, SessionInfo, ValidatorId, ValidatorIndex};

verus! {

/// A signed payload whose signature nobody has checked.
#[derive(Debug, PartialEq, Eq)]
pub struct UncheckedSigned<Payload> {
    /// The payload.
    pub payload: Payload,
    /// The payload as it is encoded where it is signed.
    pub encoded: Vec<u8>,
    /// Who signed, by their own account.
    pub validator_index: ValidatorIndex,
    /// The signature.
    pub signature: [u8; 64],
}

/// A signed payload whose signature has been found good.
#[derive(Debug, PartialEq, Eq)]
pub struct Signed<Payload> {
    unchecked: UncheckedSigned<Payload>,
}

impl<Payload> Signed<Payload> {
    /// The signed payload that was checked.
    pub closed spec fn view(self) -> UncheckedSigned<Payload> {
        self.unchecked
    }

    /// The signed payload that was checked.
    pub fn as_unchecked(&self) -> (unchecked: &UncheckedSigned<Payload>)
        ensures
            *unchecked == self@,
    {
        &self.unchecked
    }

    /// Back to the signed payload that was checked.
    pub fn into_unchecked(self) -> (unchecked: UncheckedSigned<Payload>)
        ensures
            unchecked == self@,
    {
        self.unchecked
    }
}

/// The four bytes of a number, the lowest first.
pub open spec fn little_endian(n: u32) -> Seq<u8> {
    seq![
        (n % 256) as u8,
        (n / 256 % 256) as u8,
        (n / 65536 % 256) as u8,
        (n / 16777216 % 256) as u8,
    ]
}

/// The encoding of the context that a signature is bound to: a session and a block.
pub open spec fn signing_context(session_index: SessionIndex, parent_hash: Seq<u8>) -> Seq<u8> {
    little_endian(session_index) + parent_hash
}

/// What is signed: the payload, then the context.
pub open spec fn signing_data(
    encoded: Seq<u8>,
    session_index: SessionIndex,
    parent_hash: Seq<u8>,
) -> Seq<u8> {
    encoded + signing_context(session_index, parent_hash)
}

/// The result of `sp_application_crypto::RuntimeAppPublic::verify` for a
/// `polkadot_primitives::ValidatorId`: whether a signature of a message is one of the holder
/// of a key, all three as raw bytes.
pub uninterp spec fn signature_verifies(
    key: Seq<u8>,
    message: Seq<u8>,
    signature: Seq<u8>,
) -> bool;

/// Calls `parity_scale_codec::Encode::encode` on a `polkadot_primitives::SigningContext`. The
/// encoding of a structure is that of its fields in their order; a `u32` is four bytes, the
/// lowest first, and a hash is its own 32 bytes.
#[verifier::external_body]
fn encode_signing_context(session_index: SessionIndex, parent_hash: &BlockHash) -> (bytes: Vec<u8>)
    ensures
        bytes@ == signing_context(session_index, parent_hash@),
{
    let parent_hash = polkadot_primitives::Hash::from(*parent_hash);
    let context = polkadot_primitives::SigningContext { session_index, parent_hash };
    parity_scale_codec::Encode::encode(&context)
}

/// Calls `sp_application_crypto::RuntimeAppPublic::verify` on a
/// `polkadot_primitives::ValidatorId`, which is an sr25519 key. Whether the signature is good
/// is a function of the three arguments; what function is not said. Malformed keys and
/// signatures are answered with `false`. The call panics on a message whose length does not
/// fit into 32 bits, as the transcript that it is hashed into takes no longer ones.
#[verifier::external_body]
fn verify(key: &[u8; 32], message: &Vec<u8>, signature: &[u8; 64]) -> (good: bool)
    requires
        message@.len() <= u32::MAX,
    ensures
        good == signature_verifies(key@, message@, signature@),
{
    let key = polkadot_primitives::ValidatorId::from(sp_core::sr25519::Public::from_raw(*key));
    let signature = polkadot_primitives::ValidatorSignature::from(
        sp_core::sr25519::Signature::from_raw(*signature),
    );
    sp_application_crypto::RuntimeAppPublic::verify(&key, message, &signature)
}

/// What is signed: the payload, then the context.
pub fn payload_data(
    encoded: &Vec<u8>,
    session_index: SessionIndex,
    parent_hash: &BlockHash,
) -> (data: Vec<u8>)
    ensures
        data@ == signing_data(encoded@, session_index, parent_hash@),
{
    let mut data: Vec<u8> = encoded.clone();
    let mut context: Vec<u8> = encode_signing_context(session_index, parent_hash);
    data.append(&mut context);
    data
}

/// The key of the validator with an index, if there is one.
pub open spec fn key_of(session_info: SessionInfo, index: ValidatorIndex) -> Option<ValidatorId> {
    if index.0 < session_info.validators@.len() {
        Some(session_info.validators@[index.0 as int])
    } else {
        None
    }
}

/// Whether a payload is signed by the validator that it names, for a session and a block.
pub open spec fn well_signed<Payload>(
    session_index: SessionIndex,
    session_info: SessionInfo,
    relay_parent: Seq<u8>,
    signed: UncheckedSigned<Payload>,
) -> bool {
    match key_of(session_info, signed.validator_index) {
        Some(key) => signature_verifies(
            key.0@,
            signing_data(signed.encoded@, session_index, relay_parent),
            signed.signature@,
        ),
        None => false,
    }
}

/// Whether `checked` is what the check of `signed` comes to: the same signed payload, marked
/// as checked where its signature is good.
pub open spec fn checked_as<Payload>(
    signed: UncheckedSigned<Payload>,
    good: bool,
    checked: Result<Signed<Payload>, UncheckedSigned<Payload>>,
) -> bool {
    match checked {
        Ok(checked) => good && checked@ == signed,
        Err(unchecked) => !good && unchecked == signed,
    }
}

/// Marks a signed payload as checked where its signature was found good, and hands it back
/// as it is where not.
pub fn into_checked<Payload>(signed: UncheckedSigned<Payload>, good: bool) -> (checked: Result<
    Signed<Payload>,
    UncheckedSigned<Payload>,
>)
    ensures
        checked_as(signed, good, checked),
{
    if good {
        Ok(Signed { unchecked: signed })
    } else {
        Err(signed)
    }
}

/// Checks the signature of a signed payload, made in a session and on a block.
///
/// What names no validator of the session is handed back unchecked, as is what has a bad
/// signature. The data signed by a validator of the session, which is the payload and 36
/// bytes, must have a length that fits into 32 bits.
pub fn check_signature<Payload>(
    session_index: SessionIndex,
    session_info: &SessionInfo,
    relay_parent: BlockHash,
    signed: UncheckedSigned<Payload>,
) -> (checked: Result<Signed<Payload>, UncheckedSigned<Payload>>)
    requires
        signed.validator_index.0 < session_info.validators@.len() ==> signed.encoded@.len() + 36
            <= u32::MAX,
    ensures
        checked_as(
            signed,
            well_signed(session_index, *session_info, relay_parent@, signed),
            checked,
        ),
{
    let index: usize = signed.validator_index.0 as usize;
    if index < session_info.validators.len() {
        let data = payload_data(&signed.encoded, session_index, &relay_parent);
        let good = verify(&session_info.validators[index].0, &data, &signed.signature);
        into_checked(signed, good)
    } else {
        Err(signed)
    }
}

} // verus!
