use privacy_blockchain::ChainError;
use privacy_blockchain::block::meets_difficulty;
use privacy_blockchain::blockchain::Blockchain;
use privacy_blockchain::blockchain::MessageOutcome;
use privacy_blockchain::blockchain::is_valid_chain;
use privacy_blockchain::codec::chain_message_bytes;
use privacy_blockchain::codec::emit_json_string;
use privacy_blockchain::codec::new_block_message_bytes;
use privacy_blockchain::codec::u64_dec_bytes;
use privacy_blockchain::parse::load_from_bytes;
use privacy_blockchain::parse::parse_string;
use privacy_blockchain::parse::parse_u64;
use privacy_blockchain::transaction::Transaction;
use privacy_blockchain::wallet::Wallet;
use privacy_blockchain::zk_proofs::ProofData;
use privacy_blockchain::zk_proofs::verify_transaction_proof;

struct AmountCircuit {
    amount: Option<blstrs::Scalar>,
}

impl bellman::Circuit<blstrs::Scalar> for AmountCircuit {
    fn synthesize<CS: bellman::ConstraintSystem<blstrs::Scalar>>(
        self,
        cs: &mut CS,
    ) -> Result<(), bellman::SynthesisError> {
        let amount_value = self.amount;
        let amount_allocated = cs.alloc(
            || "amount",
            || amount_value.ok_or(bellman::SynthesisError::AssignmentMissing),
        )?;
        cs.enforce(
            || "amount consistency",
            |lc| lc + amount_allocated,
            |lc| lc + CS::one(),
            |lc| lc + amount_allocated,
        );
        Ok(())
    }
}

fn generate_proof(amount: u64) -> ProofData {
    let mut rng = rand_core::OsRng;
    let amount_fr = blstrs::Scalar::from(amount);
    let params = {
        let circuit = AmountCircuit { amount: None };
        bellman::groth16::generate_random_parameters::<blstrs::Bls12, _, _>(circuit, &mut rng)
            .unwrap()
    };
    let circuit = AmountCircuit { amount: Some(amount_fr) };
    let proof = bellman::groth16::create_random_proof(circuit, &params, &mut rng).unwrap();
    let mut proof_bytes = vec![];
    proof.write(&mut proof_bytes).unwrap();
    let mut vk_bytes = vec![];
    params.vk.write(&mut vk_bytes).unwrap();
    ProofData { proof: proof_bytes, vk: vk_bytes }
}

fn signed_transfer(wallet: &Wallet, recipient: &str, amount: u64) -> Transaction {
    let mut tx = Transaction::new(
        hex::encode(&wallet.public_key),
        recipient.to_string(),
        amount,
        generate_proof(amount),
    );
    tx.sign_transaction(&wallet.secret_key).unwrap();
    tx
}

#[test]
fn test_transaction_creation() {
    let wallet = Wallet::new();
    let mut tx = Transaction::new(
        hex::encode(&wallet.public_key),
        "recipient_address".to_string(),
        100,
        generate_proof(100),
    );
    tx.sign_transaction(&wallet.secret_key).unwrap();
    assert!(tx.is_valid());
}

#[test]
fn test_blockchain() {
    let mut blockchain = Blockchain::new();
    let wallet = Wallet::new();
    let mut tx = Transaction::new(
        hex::encode(&wallet.public_key),
        "recipient_address".to_string(),
        100,
        generate_proof(100),
    );
    tx.sign_transaction(&wallet.secret_key).unwrap();
    blockchain.add_transaction(tx).unwrap();
    blockchain
        .mine_pending_transactions("miner_address", generate_proof(50))
        .unwrap();
    assert_eq!(blockchain.chain.len(), 2);
}

#[test]
fn proof_verifies_for_any_positive_amount() {
    assert!(verify_transaction_proof(&generate_proof(1)));
    assert!(verify_transaction_proof(&generate_proof(10)));
}

#[test]
fn unsigned_transaction_is_invalid() {
    let wallet = Wallet::new();
    let tx = Transaction::new(
        hex::encode(&wallet.public_key),
        "bob".to_string(),
        7,
        generate_proof(7),
    );
    assert!(!tx.is_valid());
}

#[test]
fn reward_transaction_is_valid_without_signature() {
    let tx = Transaction::new_reward("miner".to_string(), generate_proof(50));
    assert_eq!(tx.sender, "System");
    assert_eq!(tx.amount, 50);
    assert!(tx.signature.is_none());
    assert!(tx.is_valid());
}

#[test]
fn signing_with_wrong_key_is_rejected() {
    let wallet = Wallet::new();
    let other = Wallet::new();
    let mut tx = Transaction::new(
        hex::encode(&wallet.public_key),
        "bob".to_string(),
        5,
        generate_proof(5),
    );
    assert_eq!(tx.sign_transaction(&other.secret_key), Err(ChainError::WrongKey));
    assert!(tx.signature.is_none());
}

#[test]
fn tampered_signature_fails_validation() {
    let wallet = Wallet::new();
    let mut tx = signed_transfer(&wallet, "bob", 12);
    let sig = tx.signature.clone().unwrap();
    let mut bytes = sig.into_bytes();
    bytes[0] = if bytes[0] == b'a' { b'b' } else { b'a' };
    tx.signature = Some(String::from_utf8(bytes).unwrap());
    assert!(!tx.is_valid());
}

#[test]
fn tampered_proof_bytes_fail_verification() {
    let mut p = generate_proof(9);
    let last = p.proof.len() - 1;
    p.proof[last] ^= 1;
    assert!(!verify_transaction_proof(&p));
}

#[test]
fn tampered_vk_bytes_fail_verification() {
    let mut p = generate_proof(9);
    let last = p.vk.len() - 1;
    p.vk[last] ^= 1;
    assert!(!verify_transaction_proof(&p));
}

#[test]
fn mining_empty_pool_appends_coinbase_only_block() {
    let mut bc = Blockchain::new();
    bc.mine_pending_transactions("miner", generate_proof(50)).unwrap();
    assert_eq!(bc.chain.len(), 2);
    let block = &bc.chain[1];
    assert_eq!(block.transactions.len(), 1);
    assert_eq!(block.transactions[0].sender, "System");
    assert_eq!(block.transactions[0].amount, 50);
    assert_eq!(block.index, 1);
    assert_eq!(block.previous_hash, bc.chain[0].hash);
}

#[test]
fn difficulty_zero_accepts_first_candidate() {
    let mut bc = Blockchain::new();
    bc.difficulty = 0;
    bc.mine_pending_transactions("miner", generate_proof(50)).unwrap();
    assert_eq!(bc.chain.len(), 2);
    assert_eq!(bc.chain[1].nonce, 0);
    assert!(meets_difficulty(&bc.chain[1].hash, 0));
}

#[test]
fn mined_block_hash_meets_difficulty() {
    let mut bc = Blockchain::new();
    bc.mine_pending_transactions("miner", generate_proof(50)).unwrap();
    assert!(meets_difficulty(&bc.chain[1].hash, bc.difficulty));
    assert!(!meets_difficulty("0a", 2));
    assert!(!meets_difficulty("0", 2));
}

#[test]
fn transfer_then_mine_updates_balances() {
    let mut bc = Blockchain::new();
    let wallet = Wallet::new();
    let pk_hex = wallet.public_key_hex();
    let tx = signed_transfer(&wallet, "bob", 10);
    bc.add_transaction(tx).unwrap();
    assert_eq!(bc.chain.len(), 1);
    assert_eq!(bc.pending_transactions.len(), 1);
    bc.mine_pending_transactions(&pk_hex, generate_proof(50)).unwrap();
    assert_eq!(bc.chain.len(), 2);
    assert_eq!(bc.pending_transactions.len(), 0);
    assert_eq!(bc.chain[1].transactions.len(), 2);
    assert_eq!(bc.get_balance(&pk_hex), 40);
    assert_eq!(bc.get_balance("bob"), 10);
}

#[test]
fn overspending_balance_clamps_to_zero() {
    let mut bc = Blockchain::new();
    let wallet = Wallet::new();
    let pk_hex = wallet.public_key_hex();
    let tx = signed_transfer(&wallet, "bob", 30);
    bc.add_transaction(tx).unwrap();
    bc.mine_pending_transactions("carol", generate_proof(50)).unwrap();
    assert_eq!(bc.get_balance(&pk_hex), 0);
    assert_eq!(bc.get_balance("bob"), 30);
    assert_eq!(bc.get_balance("carol"), 50);
}

#[test]
fn equal_length_chains_reject_each_other() {
    let mut a = Blockchain::new();
    let mut b = Blockchain::new();
    a.mine_pending_transactions("a", generate_proof(50)).unwrap();
    b.mine_pending_transactions("b", generate_proof(50)).unwrap();
    assert_eq!(a.chain.len(), 2);
    assert_eq!(b.chain.len(), 2);
    let offer_b = chain_message_bytes(&b.chain);
    assert_eq!(a.handle_message(&offer_b), MessageOutcome::ChainRejected);
    assert_eq!(a.chain.len(), 2);
    let offer_a = chain_message_bytes(&a.chain);
    assert_eq!(b.handle_message(&offer_a), MessageOutcome::ChainRejected);
    assert_eq!(b.chain.len(), 2);
}

#[test]
fn longer_chain_replaces_shorter() {
    let mut a = Blockchain::new();
    let mut b = Blockchain::new();
    a.mine_pending_transactions("a", generate_proof(50)).unwrap();
    a.mine_pending_transactions("a", generate_proof(50)).unwrap();
    b.mine_pending_transactions("b", generate_proof(50)).unwrap();
    let offer_b = chain_message_bytes(&b.chain);
    assert_eq!(a.handle_message(&offer_b), MessageOutcome::ChainRejected);
    assert_eq!(a.chain.len(), 3);
    let offer_a = chain_message_bytes(&a.chain);
    assert_eq!(b.handle_message(&offer_a), MessageOutcome::ChainReplaced);
    assert_eq!(b.chain.len(), 3);
    assert_eq!(b.chain[2].hash, a.chain[2].hash);
    assert!(is_valid_chain(&b.chain, b.difficulty));
}

#[test]
fn replaying_own_chain_is_a_noop() {
    let mut a = Blockchain::new();
    a.mine_pending_transactions("a", generate_proof(50)).unwrap();
    let before: Vec<String> = a.chain.iter().map(|b| b.hash.clone()).collect();
    let candidate = a.chain.clone();
    assert_eq!(a.replace_chain(candidate), Err(ChainError::ChainReplacementRejected));
    let after: Vec<String> = a.chain.iter().map(|b| b.hash.clone()).collect();
    assert_eq!(before, after);
}

#[test]
fn tampered_pool_transaction_is_dropped() {
    let mut bc = Blockchain::new();
    let wallet = Wallet::new();
    let mut tx = signed_transfer(&wallet, "bob", 4);
    let sig = tx.signature.clone().unwrap();
    let mut bytes = sig.into_bytes();
    bytes[1] = if bytes[1] == b'0' { b'1' } else { b'0' };
    tx.signature = Some(String::from_utf8(bytes).unwrap());
    assert_eq!(bc.add_transaction(tx), Err(ChainError::InvalidTransaction));
    assert_eq!(bc.pending_transactions.len(), 0);
}

#[test]
fn tampered_proof_aborts_mining_and_drops_batch() {
    let mut bc = Blockchain::new();
    let wallet = Wallet::new();
    let mut tx = Transaction::new(
        hex::encode(&wallet.public_key),
        "bob".to_string(),
        6,
        generate_proof(6),
    );
    let last = tx.proof.proof.len() - 1;
    tx.proof.proof[last] ^= 1;
    tx.sign_transaction(&wallet.secret_key).unwrap();
    assert!(bc.add_transaction(tx).is_ok());
    assert_eq!(bc.pending_transactions.len(), 1);
    assert_eq!(
        bc.mine_pending_transactions("miner", generate_proof(50)),
        Err(ChainError::InvalidProof)
    );
    assert_eq!(bc.chain.len(), 1);
    assert_eq!(bc.pending_transactions.len(), 0);
}

#[test]
fn snapshot_save_load_round_trip() {
    let mut bc = Blockchain::new();
    let wallet = Wallet::new();
    let tx = signed_transfer(&wallet, "bob", 3);
    bc.add_transaction(tx).unwrap();
    bc.mine_pending_transactions("miner", generate_proof(50)).unwrap();
    let pending = signed_transfer(&wallet, "carol", 2);
    bc.add_transaction(pending).unwrap();
    let bytes = bc.snapshot_bytes();
    let loaded = load_from_bytes(&bytes).expect("snapshot should parse");
    assert_eq!(loaded.chain.len(), bc.chain.len());
    assert_eq!(loaded.pending_transactions.len(), bc.pending_transactions.len());
    assert_eq!(loaded.difficulty, bc.difficulty);
    for i in 0..bc.chain.len() {
        assert_eq!(loaded.chain[i].hash, bc.chain[i].hash);
        assert_eq!(loaded.chain[i].previous_hash, bc.chain[i].previous_hash);
        assert_eq!(loaded.chain[i].index, bc.chain[i].index);
        assert_eq!(loaded.chain[i].transactions.len(), bc.chain[i].transactions.len());
    }
    assert_eq!(loaded.pending_transactions[0].recipient, "carol");
    assert_eq!(loaded.snapshot_bytes(), bytes);
}

#[test]
fn gossiped_block_extends_tip() {
    let mut a = Blockchain::new();
    let mut b = Blockchain::new();
    a.mine_pending_transactions("a", generate_proof(50)).unwrap();
    let offer = new_block_message_bytes(&a.chain[1]);
    assert_eq!(b.handle_message(&offer), MessageOutcome::BlockAppended);
    assert_eq!(b.chain.len(), 2);
    assert_eq!(b.chain[1].hash, a.chain[1].hash);
    // the same block does not extend the new tip
    assert_eq!(b.handle_message(&offer), MessageOutcome::BlockIgnored);
    assert_eq!(b.chain.len(), 2);
}

#[test]
fn unparseable_message_is_ignored() {
    let mut bc = Blockchain::new();
    assert_eq!(bc.handle_message(b"not json at all"), MessageOutcome::Unhandled);
    assert_eq!(bc.handle_message(b"{\"other\":1}"), MessageOutcome::Unhandled);
    assert_eq!(bc.chain.len(), 1);
}

#[test]
fn decimal_rendering_and_parsing_agree() {
    assert_eq!(u64_dec_bytes(0), b"0".to_vec());
    assert_eq!(u64_dec_bytes(12345), b"12345".to_vec());
    assert_eq!(u64_dec_bytes(u64::MAX), b"18446744073709551615".to_vec());
    assert_eq!(parse_u64(b"12345,", 0), Some((12345, 5)));
    assert_eq!(parse_u64(b"18446744073709551615]", 0), Some((u64::MAX, 20)));
    assert_eq!(parse_u64(b"18446744073709551616]", 0), None);
    assert_eq!(parse_u64(b"007", 0), None);
    assert_eq!(parse_u64(b"x", 0), None);
}

#[test]
fn json_string_escaping_round_trips() {
    let message = "he said \"hi\\there\" to bob";
    let mut out: Vec<u8> = Vec::new();
    emit_json_string(&mut out, message);
    let (parsed, end) = parse_string(&out, 0).expect("rendered string should parse");
    assert_eq!(parsed, message);
    assert_eq!(end, out.len());
}

#[test]
fn wallet_identity_and_signing() {
    let wallet = Wallet::new();
    assert_eq!(wallet.public_key.len(), 32);
    assert_eq!(wallet.secret_key.len(), 32);
    let pk_hex = wallet.public_key_hex();
    assert_eq!(pk_hex.len(), 64);
    assert_eq!(pk_hex, hex::encode(&wallet.public_key));
    let sig = wallet.sign(b"a message");
    assert_eq!(sig.len(), 64);
}
