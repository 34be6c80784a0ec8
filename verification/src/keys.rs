//! Ed25519 keys as raw bytes, and the signatures made and checked with them.

use ed25519_dalek::Signer;
use vstd::prelude::*;

verus! {

/// The length of a raw key, private or public.
pub const KEY_LENGTH: usize = 32;

/// The length of a signature.
pub const SIGNATURE_LENGTH: usize = 64;

/// The public key that belongs to a private key.
pub uninterp spec fn public_key_of(seed: Seq<u8>) -> Seq<u8>;

/// Whether bytes are the encoding of a point that can serve as a public key.
pub uninterp spec fn is_public_key(bytes: Seq<u8>) -> bool;

/// The signature that a private key gives to a message.
pub uninterp spec fn signature_of(seed: Seq<u8>, message: Seq<u8>) -> Seq<u8>;

/// Whether a signature on a message passes strict verification under a public
/// key.
pub uninterp spec fn strictly_verifies(
    public: Seq<u8>,
    message: Seq<u8>,
    signature: Seq<u8>,
) -> bool;

/// Whether the commitment of a signature, its first half, is the neutral
/// point. Strict verification rejects such a signature whoever made it. A
/// signer would have to draw a nonce of zero to make one.
pub open spec fn has_neutral_commitment(signature: Seq<u8>) -> bool {
    signature.take(32) == Seq::new(
        32,
        |i: int|
            if i == 0 {
                1u8
            } else {
                0u8
            },
    )
}

/// `ed25519_dalek::SigningKey::verifying_key`, from raw bytes to raw bytes.
/// What it gives is the encoding of a point.
#[verifier::external_body]
fn ed25519_public(seed: &[u8; 32]) -> (public: [u8; 32])
    ensures
        public@ == public_key_of(seed@),
        is_public_key(public@),
{
    ed25519_dalek::SigningKey::from_bytes(seed).verifying_key().to_bytes()
}

/// `ed25519_dalek::VerifyingKey::from_bytes`, of which only success or failure
/// is kept.
#[verifier::external_body]
fn ed25519_is_public(bytes: &[u8; 32]) -> (r: bool)
    ensures
        r == is_public_key(bytes@),
{
    ed25519_dalek::VerifyingKey::from_bytes(bytes).is_ok()
}

/// `ed25519_dalek`'s `Signer::sign`, from raw bytes to raw bytes. The signature
/// has 64 bytes. It passes `verify_strict` under the signer's own public key,
/// unless its commitment is the neutral point.
#[verifier::external_body]
fn ed25519_sign(seed: &[u8; 32], message: &[u8]) -> (signature: Vec<u8>)
    ensures
        signature@ == signature_of(seed@, message@),
        signature@.len() == 64,
        !has_neutral_commitment(signature@) ==> strictly_verifies(
            public_key_of(seed@),
            message@,
            signature@,
        ),
{
    ed25519_dalek::SigningKey::from_bytes(seed).sign(message).to_bytes().to_vec()
}

/// `ed25519_dalek::VerifyingKey::verify_strict`, from raw bytes. Bytes that are
/// no public key, or no signature, verify nothing.
#[verifier::external_body]
fn ed25519_verify_strict(public: &[u8; 32], message: &[u8], signature: &[u8]) -> (r: bool)
    ensures
        r == strictly_verifies(public@, message@, signature@),
{
    match (ed25519_dalek::VerifyingKey::from_bytes(public), ed25519_dalek::Signature::from_slice(signature)) {
        (Ok(key), Ok(sig)) => key.verify_strict(message, &sig).is_ok(),
        _ => false,
    }
}

/// A private signing key: 32 raw bytes.
pub struct SigningKey {
    seed: [u8; 32],
}

impl View for SigningKey {
    type V = Seq<u8>;

    closed spec fn view(&self) -> Seq<u8> {
        self.seed@
    }
}

/// A public key: the 32 raw bytes of a point.
#[derive(Clone, Copy)]
pub struct VerifyingKey {
    bytes: [u8; 32],
}

impl View for VerifyingKey {
    type V = Seq<u8>;

    closed spec fn view(&self) -> Seq<u8> {
        self.bytes@
    }
}

impl SigningKey {
    /// The key with these bytes. Any 32 bytes are a private key.
    pub fn from_bytes(seed: &[u8; 32]) -> (key: SigningKey)
        ensures
            key@ == seed@,
    {
        SigningKey { seed: *seed }
    }

    /// The raw bytes of the key.
    pub fn to_bytes(&self) -> (seed: [u8; 32])
        ensures
            seed@ == self@,
    {
        self.seed
    }

    /// The public half.
    pub fn verifying_key(&self) -> (key: VerifyingKey)
        ensures
            key@ == public_key_of(self@),
    {
        VerifyingKey { bytes: ed25519_public(&self.seed) }
    }

    /// Signs a message.
    pub fn sign(&self, message: &[u8]) -> (signature: Vec<u8>)
        ensures
            signature@ == signature_of(self@, message@),
            signature@.len() == SIGNATURE_LENGTH,
            !has_neutral_commitment(signature@) ==> strictly_verifies(
                public_key_of(self@),
                message@,
                signature@,
            ),
    {
        ed25519_sign(&self.seed, message)
    }
}

impl VerifyingKey {
    #[verifier::type_invariant]
    spec fn wf(self) -> bool {
        is_public_key(self.bytes@)
    }

    /// The key with these bytes, if they encode a point.
    pub fn from_bytes(bytes: &[u8; 32]) -> (key: Option<VerifyingKey>)
        ensures
            match key {
                Some(k) => is_public_key(bytes@) && k@ == bytes@,
                None => !is_public_key(bytes@),
            },
    {
        if ed25519_is_public(bytes) {
            Some(VerifyingKey { bytes: *bytes })
        } else {
            None
        }
    }

    /// The raw bytes of the key.
    pub fn to_bytes(&self) -> (bytes: [u8; 32])
        ensures
            bytes@ == self@,
            is_public_key(bytes@),
    {
        proof {
            use_type_invariant(self);
        }
        self.bytes
    }

    /// Whether a signature on a message passes strict verification.
    pub fn verify_strict(&self, message: &[u8], signature: &[u8]) -> (r: bool)
        ensures
            r == strictly_verifies(self@, message@, signature@),
    {
        ed25519_verify_strict(&self.bytes, message, signature)
    }
}

} // verus!
