//! The signing primitive: RSASSA-PSS from the `rsa` crate, with fresh
//! randomness for every signature.
//!
//! Nothing is proved of the signatures themselves. What is proved is which
//! hash a request leads to, and that the signature travels under the name
//! of that hash and no other. Keys with a modulus of fewer than
//! [`MIN_KEY_SIZE`] bits are not signed with.

use crate::error::AgentError;
use crate::signature::{HashAlg, Signature, SignatureView};
use rsa::pss::SigningKey;
use rsa::sha2::{Sha256, Sha512};
use rsa::signature::{RandomizedSigner, SignatureEncoding};
use rsa::traits::PublicKeyParts;
use rsa::{BigUint, RsaPrivateKey};
use sha1::Sha1;
use ssh_key::private::RsaKeypair;
use vstd::prelude::*;

verus! {

/// The least size, in bits, of an RSA modulus that the agent signs with.
pub const MIN_KEY_SIZE: usize = 2048;

/// `ssh_key::private::RsaKeypair`, an RSA key pair as the `ssh-key` crate
/// reads it from a stored key. Nothing is known of what is inside.
#[verifier::external_type_specification]
#[verifier::external_body]
pub struct ExRsaKeypair(RsaKeypair);

/// `rsa::RsaPrivateKey`, an RSA private key as the `rsa` crate signs with
/// it. Nothing is known of what is inside.
#[verifier::external_type_specification]
#[verifier::external_body]
pub struct ExRsaPrivateKey(RsaPrivateKey);

/// `rsa::RsaPrivateKey::from_components`, given the modulus, the two
/// exponents and the two primes of `keypair`: the key in the form that the
/// `rsa` crate signs with, or nothing when a number is not positive or the
/// numbers do not make a key. Nothing is claimed of the key.
#[verifier::external_body]
fn rsa_private_key(keypair: &RsaKeypair) -> Option<RsaPrivateKey> {
    let n = BigUint::try_from(&keypair.public.n).ok()?;
    let e = BigUint::try_from(&keypair.public.e).ok()?;
    let d = BigUint::try_from(&keypair.private.d).ok()?;
    let p = BigUint::try_from(&keypair.private.p).ok()?;
    let q = BigUint::try_from(&keypair.private.q).ok()?;
    RsaPrivateKey::from_components(n, e, d, vec![p, q]).ok()
}

/// `rsa::traits::PublicKeyParts::size` on an RSA private key: the length of
/// its modulus in bytes. Nothing is claimed of the number.
#[verifier::external_body]
fn rsa_modulus_len(key: &RsaPrivateKey) -> usize {
    key.size()
}

/// `rsa::pss::SigningKey::<Sha1>::try_sign_with_rng` with the thread's
/// random number generator: a signature over `data`, or nothing when the
/// primitive fails. Nothing is claimed of the bytes; their salt is drawn
/// anew in every call.
#[verifier::external_body]
fn pss_sign_sha1(key: RsaPrivateKey, data: &[u8]) -> Option<Vec<u8>> {
    match SigningKey::<Sha1>::new(key).try_sign_with_rng(&mut rand::thread_rng(), data) {
        Ok(signature) => Some(signature.to_vec()),
        Err(_) => None,
    }
}

/// `rsa::pss::SigningKey::<Sha256>::try_sign_with_rng`, as
/// [`pss_sign_sha1`].
#[verifier::external_body]
fn pss_sign_sha256(key: RsaPrivateKey, data: &[u8]) -> Option<Vec<u8>> {
    match SigningKey::<Sha256>::new(key).try_sign_with_rng(&mut rand::thread_rng(), data) {
        Ok(signature) => Some(signature.to_vec()),
        Err(_) => None,
    }
}

/// `rsa::pss::SigningKey::<Sha512>::try_sign_with_rng`, as
/// [`pss_sign_sha1`].
#[verifier::external_body]
fn pss_sign_sha512(key: RsaPrivateKey, data: &[u8]) -> Option<Vec<u8>> {
    match SigningKey::<Sha512>::new(key).try_sign_with_rng(&mut rand::thread_rng(), data) {
        Ok(signature) => Some(signature.to_vec()),
        Err(_) => None,
    }
}

/// Labels the outcome of a signing attempt with the hash that was used:
/// the raw bytes, if there are any, become a signature under that hash, and
/// their absence becomes [`AgentError::SigningFailed`].
pub fn signature_from(algorithm: HashAlg, raw: Option<Vec<u8>>) -> (r: Result<
    Signature,
    AgentError,
>)
    ensures
        match raw {
            Some(data) => r matches Ok(signature) && signature@ == (SignatureView {
                algorithm,
                data: data@,
            }),
            None => r matches Err(e) && e == AgentError::SigningFailed,
        },
{
    match raw {
        Some(data) => Ok(Signature { algorithm, data }),
        None => Err(AgentError::SigningFailed),
    }
}

/// Whether a key whose modulus takes `modulus_len` bytes is long enough to
/// sign with.
pub fn key_size_allowed(modulus_len: usize) -> (r: bool)
    ensures
        r == (modulus_len * 8 >= MIN_KEY_SIZE),
{
    modulus_len >= MIN_KEY_SIZE / 8
}

/// Signs `data` with `keypair` under the given hash. The outcome is either
/// a signature that names that hash, or [`AgentError::SigningFailed`]; the
/// latter always where the numbers of `keypair` make no key, or make one
/// whose modulus is shorter than [`MIN_KEY_SIZE`] bits.
pub fn sign_with(keypair: &RsaKeypair, algorithm: HashAlg, data: &[u8]) -> (r: Result<
    Signature,
    AgentError,
>)
    ensures
        r matches Ok(signature) ==> signature@.algorithm == algorithm,
        r matches Err(e) ==> e == AgentError::SigningFailed,
{
    let key = match rsa_private_key(keypair) {
        Some(key) => key,
        None => {
            return Err(AgentError::SigningFailed);
        },
    };
    if !key_size_allowed(rsa_modulus_len(&key)) {
        return Err(AgentError::SigningFailed);
    }
    let raw = match algorithm {
        HashAlg::Sha1 => pss_sign_sha1(key, data),
        HashAlg::Sha256 => pss_sign_sha256(key, data),
        HashAlg::Sha512 => pss_sign_sha512(key, data),
    };
    signature_from(algorithm, raw)
}

} // verus!
