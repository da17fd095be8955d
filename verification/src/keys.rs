//! Ed25519 key pairs and the signatures made with them.

use crate::error::CollectorError;
use ed25519_dalek::Signer;
use vstd::prelude::*;

verus! {

/// The number of bytes in each half of a key pair.
pub const KEY_LENGTH: usize = 32;

/// The number of bytes in a signature.
pub const SIGNATURE_LENGTH: usize = 64;

/// A secret key with the public key that belongs to it.
#[derive(Clone, Copy, Debug)]
pub struct KeyPair {
    pub secret: [u8; 32],
    pub public: [u8; 32],
}

/// The Ed25519 public key that belongs to a secret key.
pub uninterp spec fn ed25519_public_key(secret: Seq<u8>) -> Seq<u8>;

/// The Ed25519 signature over `message` made with the key pair of `secret`
/// and `public`; `None` where `public` is not the encoding of a point of the
/// curve.
pub uninterp spec fn ed25519_signature(
    secret: Seq<u8>,
    public: Seq<u8>,
    message: Seq<u8>,
) -> Option<Seq<u8>>;

/// `ed25519_dalek::SignatureError`, the error of the signature scheme. It is
/// carried through unread.
#[verifier::external_type_specification]
#[verifier::external_body]
pub struct ExSignatureError(ed25519_dalek::SignatureError);

/// Calls `ed25519_dalek::SecretKey::from_bytes`, which refuses nothing but a
/// length other than 32, and `ed25519_dalek::PublicKey::from` on the secret
/// key it gives. Not proved: that the call succeeds, and that the bytes
/// handed back are the public key that Ed25519 derives from `secret`, which
/// `ed25519_public_key` names.
#[verifier::external_body]
fn derive_public_key(secret: &[u8; 32]) -> (r: Result<[u8; 32], ed25519_dalek::SignatureError>)
    ensures
        r is Ok,
        r->Ok_0@ == ed25519_public_key(secret@),
{
    let key = ed25519_dalek::SecretKey::from_bytes(secret)?;
    Ok(ed25519_dalek::PublicKey::from(&key).to_bytes())
}

/// Calls `ed25519_dalek::Keypair::from_bytes` on `secret` followed by
/// `public`, and `sign` on the key pair it gives. The first fails where
/// `public` does not decode to a point of the curve; the second signs
/// without randomness. Not proved: that the outcome is the one that
/// `ed25519_signature` names for these three byte strings.
#[verifier::external_body]
fn sign_detached(secret: &[u8; 32], public: &[u8; 32], message: &[u8]) -> (r: Result<
    [u8; 64],
    ed25519_dalek::SignatureError,
>)
    ensures
        match r {
            Ok(signature) => ed25519_signature(secret@, public@, message@) == Some(signature@),
            Err(_) => ed25519_signature(secret@, public@, message@) is None,
        },
{
    let mut pair = [0u8; 64];
    pair[..32].copy_from_slice(secret);
    pair[32..].copy_from_slice(public);
    let key = ed25519_dalek::Keypair::from_bytes(&pair)?;
    Ok(key.sign(message).to_bytes())
}

/// What signing `message` with a key pair gives: the signature, or the
/// refusal of the key pair.
pub open spec fn signature_of(key: KeyPair, message: Seq<u8>) -> Result<Seq<u8>, CollectorError> {
    match ed25519_signature(key.secret@, key.public@, message) {
        Some(signature) => Ok(signature),
        None => Err(CollectorError::SigningFailed),
    }
}

impl KeyPair {
    /// The key pair of a secret key.
    pub fn from_secret(secret: [u8; 32]) -> (key: KeyPair)
        ensures
            key.secret == secret,
            key.public@ == ed25519_public_key(secret@),
    {
        match derive_public_key(&secret) {
            Ok(public) => KeyPair { secret, public },
            Err(_) => vstd::pervasive::unreached(),
        }
    }

    /// Signs `message`.
    pub fn sign(&self, message: &[u8]) -> (r: Result<[u8; 64], CollectorError>)
        ensures
            match signature_of(*self, message@) {
                Ok(signature) => r is Ok && r->Ok_0@ == signature,
                Err(e) => r == Err::<[u8; 64], CollectorError>(e),
            },
    {
        match sign_detached(&self.secret, &self.public, message) {
            Ok(signature) => Ok(signature),
            Err(_) => Err(CollectorError::SigningFailed),
        }
    }
}

} // verus!
