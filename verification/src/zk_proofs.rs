//! The zero-knowledge proof bundle attached to every transaction, and its
//! verification through the Groth16 verifier of `bellman`.
//!
//! Proof generation needs an implementation of `bellman::Circuit` and
//! therefore lives outside the verified library; the library treats a bundle
//! as an opaque pair of byte blobs and only ever verifies one.

use vstd::prelude::*;

verus! {

/// An opaque proof bundle: a serialized Groth16 proof and the serialized
/// verifying key it is checked against.
#[derive(Clone, Debug)]
pub struct ProofData {
    pub proof: Vec<u8>,
    pub vk: Vec<u8>,
}

/// The view of a proof bundle: the two byte strings.
pub struct ProofView {
    pub proof: Seq<u8>,
    pub vk: Seq<u8>,
}

impl View for ProofData {
    type V = ProofView;

    open spec fn view(&self) -> ProofView {
        ProofView { proof: self.proof@, vk: self.vk@ }
    }
}

impl DeepView for ProofData {
    type V = ProofView;

    open spec fn deep_view(&self) -> ProofView {
        self.view()
    }
}

/// Whether the Groth16 verifier accepts the proof bytes against the verifying
/// key bytes; acceptance is a function of the two byte strings alone, and
/// bytes that do not deserialize are never accepted.
pub uninterp spec fn zk_verifies(proof: Seq<u8>, vk: Seq<u8>) -> bool;

/// Relies on `bellman::groth16`: `Proof::read`, `VerifyingKey::read`,
/// `prepare_verifying_key` and `verify_proof` (with no public inputs).
/// Deserialization and verification are deterministic in the input bytes;
/// either blob failing to deserialize yields `false` without panicking.
#[verifier::external_body]
pub fn verify_transaction_proof(proof_data: &ProofData) -> (r: bool)
    ensures
        r == zk_verifies(proof_data.proof@, proof_data.vk@),
{
    let mut proof_cursor = std::io::Cursor::new(&proof_data.proof);
    let proof = match bellman::groth16::Proof::<blstrs::Bls12>::read(&mut proof_cursor) {
        Ok(p) => p,
        Err(_) => return false,
    };
    let mut vk_cursor = std::io::Cursor::new(&proof_data.vk);
    let vk = match bellman::groth16::VerifyingKey::<blstrs::Bls12>::read(&mut vk_cursor) {
        Ok(v) => v,
        Err(_) => return false,
    };
    let pvk = bellman::groth16::prepare_verifying_key(&vk);
    bellman::groth16::verify_proof(&pvk, &proof, &[]).is_ok()
}

} // verus!
