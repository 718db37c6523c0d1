//! Content hashing and Ed25519 signatures, as the library relies on them:
//! named results for the outside digest and signature functions, and the
//! trusted calls that produce them.

use vstd::prelude::*;

verus! {

/// The SHA-256 digest of a byte string, as computed by `sha2`.
pub uninterp spec fn sha256_of(data: Seq<u8>) -> Seq<u8>;

/// The Ed25519 public key derived from a 32-byte secret seed (RFC 8032).
pub uninterp spec fn ed_pub_of(sk: Seq<u8>) -> Seq<u8>;

/// The deterministic Ed25519 signature of a message under a 32-byte secret
/// seed (RFC 8032).
pub uninterp spec fn ed_sign_of(sk: Seq<u8>, msg: Seq<u8>) -> Seq<u8>;

/// Whether the Ed25519 verifier accepts `sig` on `msg` under the encoded
/// public key `vk`; malformed keys are never accepted.
pub uninterp spec fn ed_verifies(vk: Seq<u8>, msg: Seq<u8>, sig: Seq<u8>) -> bool;

/// Relies on `sha2::Sha256` (FIPS 180-4): the digest is a function of the
/// input bytes alone, and is 32 bytes long.
#[verifier::external_body]
pub(crate) fn sha256_digest(data: &[u8]) -> (r: Vec<u8>)
    ensures
        r@ == sha256_of(data@),
        r@.len() == 32,
{
    let mut hasher = <sha2::Sha256 as sha2::Digest>::new();
    sha2::Digest::update(&mut hasher, data);
    sha2::Digest::finalize(hasher).to_vec()
}

/// Relies on `ed25519_zebra::VerificationKeyBytes::from(&SigningKey)`: the
/// RFC 8032 public key derived from the 32-byte seed, 32 bytes long.
#[verifier::external_body]
pub(crate) fn ed25519_public_key(sk: &[u8]) -> (r: Vec<u8>)
    requires
        sk@.len() == 32,
    ensures
        r@ == ed_pub_of(sk@),
        r@.len() == 32,
{
    let seed: [u8; 32] = sk.try_into().unwrap();
    let signing_key = ed25519_zebra::SigningKey::from(seed);
    let vk_bytes: [u8; 32] = ed25519_zebra::VerificationKeyBytes::from(&signing_key).into();
    vk_bytes.to_vec()
}

/// Relies on `ed25519_zebra::SigningKey::sign`: the RFC 8032 signature, a
/// deterministic function of seed and message, 64 bytes long; and on Ed25519
/// correctness (RFC 8032 §5.1.7): a signature so produced verifies under the
/// public key derived from the same seed.
#[verifier::external_body]
pub(crate) fn ed25519_sign(sk: &[u8], msg: &[u8]) -> (r: Vec<u8>)
    requires
        sk@.len() == 32,
    ensures
        r@ == ed_sign_of(sk@, msg@),
        r@.len() == 64,
        ed_verifies(ed_pub_of(sk@), msg@, r@),
{
    let seed: [u8; 32] = sk.try_into().unwrap();
    let signing_key = ed25519_zebra::SigningKey::from(seed);
    let sig: [u8; 64] = signing_key.sign(msg).to_bytes();
    sig.to_vec()
}

/// Relies on `ed25519_zebra::VerificationKey::try_from` and
/// `VerificationKey::verify`: acceptance is a function of key bytes, message
/// and signature alone; a key that does not parse is never accepted.
#[verifier::external_body]
pub(crate) fn ed25519_verify(vk: &[u8], msg: &[u8], sig: &[u8]) -> (r: bool)
    requires
        sig@.len() == 64,
    ensures
        r == ed_verifies(vk@, msg@, sig@),
{
    let key = match ed25519_zebra::VerificationKey::try_from(vk) {
        Ok(k) => k,
        Err(_) => return false,
    };
    let sig_bytes: [u8; 64] = sig.try_into().unwrap();
    let signature = ed25519_zebra::Signature::from_bytes(&sig_bytes);
    key.verify(&signature, msg).is_ok()
}

/// Relies on `chrono::Utc::now`: an arbitrary clock reading; nothing is
/// assumed of the value.
#[verifier::external_body]
pub(crate) fn now_ts() -> i64 {
    chrono::Utc::now().timestamp()
}

} // verus!
