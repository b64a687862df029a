//! Trusted boundary to the Ed25519 implementation in `ed25519_dalek`.
//! Keys, messages and signatures cross it as plain byte vectors.

use vstd::prelude::*;
use ed25519_dalek::Signer;
use ed25519_dalek::Verifier;

verus! {

/// The public key that `ed25519_dalek::SigningKey::verifying_key` derives
/// from 32 signing-key bytes: a function of those bytes alone.
pub uninterp spec fn pk_of(sk: Seq<u8>) -> Seq<u8>;

/// The 64-byte detached signature that Ed25519 signing produces over a
/// message: signing is deterministic, a function of message and key alone.
pub uninterp spec fn sig_of(m: Seq<u8>, sk: Seq<u8>) -> Seq<u8>;

/// Whether Ed25519 verification accepts `sig` over `m` under the public key
/// bytes `pk`: a function of the three byte strings alone.
pub uninterp spec fn sig_ok(m: Seq<u8>, sig: Seq<u8>, pk: Seq<u8>) -> bool;

/// Relies on `ed25519_dalek::SigningKey::generate`: a fresh 32-byte signing
/// key drawn from the operating system's randomness.
#[verifier::external_body]
pub(crate) fn gen_signing_key() -> (r: Vec<u8>)
    ensures
        r@.len() == 32,
{
    ed25519_dalek::SigningKey::generate(&mut rand::rngs::OsRng).to_bytes().to_vec()
}

/// Relies on `ed25519_dalek::SigningKey::verifying_key`: the public key
/// paired with a signing key, derived from its bytes alone.
#[verifier::external_body]
pub(crate) fn public_key_of(sk: &[u8]) -> (r: Vec<u8>)
    requires
        sk@.len() == 32,
    ensures
        r@ == pk_of(sk@),
        r@.len() == 32,
{
    let arr: [u8; 32] = sk.try_into().unwrap();
    ed25519_dalek::SigningKey::from_bytes(&arr).verifying_key().to_bytes().to_vec()
}

/// Relies on `ed25519_dalek`'s `Signer::sign`: deterministic Ed25519 signing;
/// the produced signature verifies over the same message under the signing
/// key's public key.
#[verifier::external_body]
pub(crate) fn sign_detached(m: &[u8], sk: &[u8]) -> (r: Vec<u8>)
    requires
        sk@.len() == 32,
    ensures
        r@ == sig_of(m@, sk@),
        r@.len() == 64,
        sig_ok(m@, r@, pk_of(sk@)),
{
    let arr: [u8; 32] = sk.try_into().unwrap();
    let key = ed25519_dalek::SigningKey::from_bytes(&arr);
    key.sign(m).to_bytes().to_vec()
}

/// Relies on `ed25519_dalek::VerifyingKey::verify`: deterministic acceptance
/// of a signature over a message under a public key; key bytes that are not a
/// valid curve point are never accepted.
#[verifier::external_body]
pub(crate) fn verify_detached(m: &[u8], sig: &[u8], pk: &[u8]) -> (r: bool)
    requires
        sig@.len() == 64,
        pk@.len() == 32,
    ensures
        r == sig_ok(m@, sig@, pk@),
{
    let pk_arr: [u8; 32] = pk.try_into().unwrap();
    let key = match ed25519_dalek::VerifyingKey::from_bytes(&pk_arr) {
        Ok(k) => k,
        Err(_) => return false,
    };
    let sig_arr: [u8; 64] = sig.try_into().unwrap();
    let s = ed25519_dalek::Signature::from_bytes(&sig_arr);
    key.verify(m, &s).is_ok()
}

} // verus!
