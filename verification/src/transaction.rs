//! Signed value-transfer transactions with an attached proof bundle:
//! construction, signing, and the cheap validity gate used at the pool
//! boundary.

use vstd::prelude::*;
use vstd::utf8::encode_utf8;
use crate::ChainError;
use crate::MINING_REWARD;
use crate::codec::dec_bytes;
use crate::crypto::ed_pub_of;
use crate::crypto::ed_sign_of;
use crate::crypto::ed_verifies;
use crate::crypto::ed25519_public_key;
use crate::crypto::ed25519_sign;
use crate::crypto::ed25519_verify;
use crate::crypto::sha256_digest;
use crate::crypto::sha256_of;
use crate::hexcode::hex_decode;
use crate::hexcode::hex_decode_string;
use crate::hexcode::hex_encode;
use crate::hexcode::hex_encode_bytes;
use crate::hexcode::hex_ok;
use crate::hexcode::lemma_hex_encode_ok;
use crate::hexcode::lemma_hex_round_trip;
use crate::zk_proofs::ProofData;
use crate::zk_proofs::ProofView;

verus! {

/// An immutable signed record of a value transfer, carrying an opaque proof
/// bundle. `sender` is a hex public key, or the literal `"System"` for a
/// coinbase; `signature` is a hex-encoded 64-byte Ed25519 signature.
#[derive(Clone, Debug)]
pub struct Transaction {
    pub sender: String,
    pub recipient: String,
    pub amount: u64,
    pub signature: Option<String>,
    pub proof: ProofData,
}

/// The view of a transaction: its fields as mathematical values.
pub struct TxView {
    pub sender: Seq<char>,
    pub recipient: Seq<char>,
    pub amount: u64,
    pub signature: Option<Seq<char>>,
    pub proof: ProofView,
}

impl View for Transaction {
    type V = TxView;

    open spec fn view(&self) -> TxView {
        TxView {
            sender: self.sender@,
            recipient: self.recipient@,
            amount: self.amount,
            signature: match self.signature {
                Option::Some(s) => Option::Some(s@),
                Option::None => Option::None,
            },
            proof: self.proof@,
        }
    }
}

impl DeepView for Transaction {
    type V = TxView;

    open spec fn deep_view(&self) -> TxView {
        self.view()
    }
}

/// The sender string of a coinbase transaction.
pub open spec fn system_sender() -> Seq<char> {
    "System"@
}

/// The bytes hashed to form a transaction's message digest: the UTF-8 of
/// sender and recipient, then the decimal rendering of the amount.
pub open spec fn tx_payload_bytes(t: TxView) -> Seq<u8> {
    encode_utf8(t.sender) + encode_utf8(t.recipient) + dec_bytes(t.amount as nat)
}

/// A transaction's message digest: the SHA-256 of its payload, rendered as
/// lowercase hex.
pub open spec fn tx_digest_chars(t: TxView) -> Seq<char> {
    hex_encode(sha256_of(tx_payload_bytes(t)))
}

/// The byte string actually signed and verified: the UTF-8 of the digest.
pub open spec fn tx_message_bytes(t: TxView) -> Seq<u8> {
    encode_utf8(tx_digest_chars(t))
}

/// When the validity gate accepts a transaction: a coinbase is always
/// accepted; any other transaction must carry a signature that decodes to 64
/// bytes and verifies against the decoded sender key over the transaction's
/// message. Malformed hex or keys are never accepted.
pub open spec fn spec_tx_valid(t: TxView) -> bool {
    ||| t.sender == system_sender()
    ||| match t.signature {
        Option::Some(sig) => {
            &&& hex_ok(sig)
            &&& hex_decode(sig).len() == 64
            &&& hex_ok(t.sender)
            &&& ed_verifies(hex_decode(t.sender), tx_message_bytes(t), hex_decode(sig))
        },
        Option::None => false,
    }
}

impl Transaction {
    /// Constructs an unsigned transaction around a proof bundle supplied by
    /// the proof engine.
    pub fn new(sender: String, recipient: String, amount: u64, proof: ProofData) -> (t:
        Transaction)
        ensures
            t@.sender == sender@,
            t@.recipient == recipient@,
            t@.amount == amount,
            t@.signature is None,
            t@.proof.proof == proof@.proof,
            t@.proof.vk == proof@.vk,
    {
        Transaction { sender, recipient, amount, signature: Option::None, proof }
    }

    /// Constructs the coinbase transaction crediting a miner with the mining
    /// reward, around a proof bundle for that amount.
    pub fn new_reward(recipient: String, proof: ProofData) -> (t: Transaction)
        ensures
            t@.sender == system_sender(),
            t@.recipient == recipient@,
            t@.amount == MINING_REWARD,
            t@.signature is None,
            t@.proof.proof == proof@.proof,
            t@.proof.vk == proof@.vk,
            spec_tx_valid(t@),
    {
        let sender = "System".to_owned();
        Transaction { sender, recipient, amount: MINING_REWARD, signature: Option::None, proof }
    }

    /// The transaction's message digest as a hex string.
    fn calculate_hash(&self) -> (r: String)
        ensures
            r@ == tx_digest_chars(self@),
    {
        let mut payload: Vec<u8> = self.sender.as_str().as_bytes_vec();
        let recipient_bytes = self.recipient.as_str().as_bytes_vec();
        crate::codec::emit_bytes(&mut payload, recipient_bytes.as_slice());
        let amount_bytes = crate::codec::u64_dec_bytes(self.amount);
        crate::codec::emit_bytes(&mut payload, amount_bytes.as_slice());
        assert(payload@ =~= tx_payload_bytes(self@));
        let digest = sha256_digest(payload.as_slice());
        hex_encode_bytes(digest.as_slice())
    }

    /// Signs the transaction with a 32-byte Ed25519 secret seed, storing the
    /// hex signature. Fails with `WrongKey`, leaving the transaction
    /// unchanged, exactly when the public key derived from the seed does not
    /// match `sender`. On success the transaction passes the validity gate:
    /// signing with the matching key makes `is_valid` return `true`.
    pub fn sign_transaction(&mut self, signing_key: &[u8]) -> (r: Result<(), ChainError>)
        requires
            signing_key@.len() == 32,
        ensures
            r is Ok <==> old(self)@.sender == hex_encode(ed_pub_of(signing_key@)),
            r is Ok ==> final(self)@.signature == Option::Some(
                hex_encode(ed_sign_of(signing_key@, tx_message_bytes(old(self)@))),
            ),
            r is Ok ==> spec_tx_valid(final(self)@),
            r is Err ==> r == Result::<(), ChainError>::Err(ChainError::WrongKey) && final(self)@
                == old(self)@,
            final(self)@.sender == old(self)@.sender,
            final(self)@.recipient == old(self)@.recipient,
            final(self)@.amount == old(self)@.amount,
            final(self)@.proof == old(self)@.proof,
    {
        let derived = ed25519_public_key(signing_key);
        let derived_hex = hex_encode_bytes(derived.as_slice());
        if !(self.sender == derived_hex) {
            return Result::Err(ChainError::WrongKey);
        }
        let digest = self.calculate_hash();
        let msg = digest.as_str().as_bytes_vec();
        assert(msg@ == tx_message_bytes(self@));
        let sig = ed25519_sign(signing_key, msg.as_slice());
        let sig_hex = hex_encode_bytes(sig.as_slice());
        self.signature = Option::Some(sig_hex);
        proof {
            let t = self@;
            let sk = signing_key@;
            lemma_hex_encode_ok(ed_sign_of(sk, tx_message_bytes(old(self)@)));
            lemma_hex_round_trip(ed_sign_of(sk, tx_message_bytes(old(self)@)));
            lemma_hex_encode_ok(ed_pub_of(sk));
            lemma_hex_round_trip(ed_pub_of(sk));
            assert(tx_message_bytes(t) == tx_message_bytes(old(self)@));
            assert(spec_tx_valid(t));
        }
        Result::Ok(())
    }

    /// The cheap validity gate for the pending pool: `true` for a coinbase;
    /// otherwise `true` exactly when a well-formed signature verifies against
    /// `sender` over the transaction's message digest. The attached proof
    /// bundle is not inspected here.
    pub fn is_valid(&self) -> (r: bool)
        ensures
            r == spec_tx_valid(self@),
    {
        if self.sender == "System".to_owned() {
            return true;
        }
        match &self.signature {
            Option::None => false,
            Option::Some(sig_hex) => {
                let sig_bytes = match hex_decode_string(sig_hex.as_str()) {
                    Option::None => {
                        return false;
                    },
                    Option::Some(b) => b,
                };
                if sig_bytes.len() != 64 {
                    return false;
                }
                let vk_bytes = match hex_decode_string(self.sender.as_str()) {
                    Option::None => {
                        return false;
                    },
                    Option::Some(b) => b,
                };
                let digest = self.calculate_hash();
                let msg = digest.as_str().as_bytes_vec();
                ed25519_verify(vk_bytes.as_slice(), msg.as_slice(), sig_bytes.as_slice())
            },
        }
    }
}

} // verus!
