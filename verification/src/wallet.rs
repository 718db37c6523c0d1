//! Wallets: an Ed25519 keypair held as plain bytes. The hex encoding of the
//! public key is the on-chain identity; file persistence of wallets is left
//! to the surrounding program.

use vstd::prelude::*;
use crate::crypto::ed_pub_of;
use crate::crypto::ed_verifies;
use crate::hexcode::hex_encode;
use crate::hexcode::hex_encode_bytes;

verus! {

/// An Ed25519 keypair: a 32-byte public key and the 32-byte secret seed it
/// is derived from.
#[derive(Clone, Debug)]
pub struct Wallet {
    pub public_key: Vec<u8>,
    pub secret_key: Vec<u8>,
}

/// Relies on `ed25519_dalek::SigningKey::generate` and `verifying_key`: a
/// fresh 32-byte seed from system entropy and its RFC 8032 public key, the
/// same derivation `ed25519_zebra` uses for the same seed.
#[verifier::external_body]
fn generate_keypair() -> (r: (Vec<u8>, Vec<u8>))
    ensures
        r.0@.len() == 32,
        r.1@.len() == 32,
        r.1@ == ed_pub_of(r.0@),
{
    let signing_key = ed25519_dalek::SigningKey::generate(&mut rand::rngs::OsRng);
    let vk = signing_key.verifying_key();
    (signing_key.to_bytes().to_vec(), vk.to_bytes().to_vec())
}

/// Relies on `ed25519_dalek::SigningKey::sign`: a deterministic RFC 8032
/// Ed25519 signature, 64 bytes, which the Ed25519 verifier accepts under the
/// public key derived from the same seed (RFC 8032 §5.1.7).
#[verifier::external_body]
fn dalek_sign(sk: &[u8], msg: &[u8]) -> (r: Vec<u8>)
    requires
        sk@.len() == 32,
    ensures
        r@.len() == 64,
        ed_verifies(ed_pub_of(sk@), msg@, r@),
{
    let seed: [u8; 32] = sk.try_into().unwrap();
    let signing_key = ed25519_dalek::SigningKey::from_bytes(&seed);
    ed25519_dalek::Signer::sign(&signing_key, msg).to_bytes().to_vec()
}

impl Wallet {
    /// Generates a fresh wallet from system entropy.
    pub fn new() -> (w: Wallet)
        ensures
            w.secret_key@.len() == 32,
            w.public_key@.len() == 32,
            w.public_key@ == ed_pub_of(w.secret_key@),
    {
        let (secret_key, public_key) = generate_keypair();
        Wallet { public_key, secret_key }
    }

    /// Assembles a wallet from existing key bytes.
    pub fn from_keys(public_key: Vec<u8>, secret_key: Vec<u8>) -> (w: Wallet)
        ensures
            w.public_key@ == public_key@,
            w.secret_key@ == secret_key@,
    {
        Wallet { public_key, secret_key }
    }

    /// Signs a message with the wallet's secret key.
    pub fn sign(&self, message: &[u8]) -> (r: Vec<u8>)
        requires
            self.secret_key@.len() == 32,
        ensures
            r@.len() == 64,
            ed_verifies(ed_pub_of(self.secret_key@), message@, r@),
    {
        dalek_sign(self.secret_key.as_slice(), message)
    }

    /// The wallet's on-chain identity: the hex encoding of its public key.
    pub fn public_key_hex(&self) -> (r: String)
        ensures
            r@ == hex_encode(self.public_key@),
    {
        hex_encode_bytes(self.public_key.as_slice())
    }
}

} // verus!
