//! The chain and its pending-transaction pool: genesis, mining with
//! proof-of-work, balance derivation, snapshot rendering, and the
//! longest-chain replacement rule.

use vstd::prelude::*;
use std::collections::VecDeque;
use crate::BATCH_SIZE;
use crate::ChainError;
use crate::DIFFICULTY;
use crate::MINING_REWARD;
use crate::block::Block;
use crate::block::BlockView;
use crate::block::computed_hash;
use crate::block::leading_zeros;
use crate::block::meets_difficulty;
use crate::codec::emit_snapshot_json;
use crate::codec::snapshot_json;
use crate::transaction::Transaction;
use crate::transaction::TxView;
use crate::transaction::spec_tx_valid;
use crate::transaction::system_sender;
use crate::zk_proofs::ProofData;
use crate::zk_proofs::ProofView;
use crate::zk_proofs::verify_transaction_proof;
use crate::zk_proofs::zk_verifies;

verus! {

/// The deterministic genesis block: index 0, timestamp 0, nonce 0, previous
/// hash `"0"`, and no transactions.
pub open spec fn is_genesis(b: BlockView) -> bool {
    &&& b.index == 0
    &&& b.timestamp == 0
    &&& b.nonce == 0
    &&& b.previous_hash == "0"@
    &&& b.transactions.len() == 0
}

/// Structural validity of a chain: it starts with the deterministic genesis,
/// and every later block links to its predecessor's hash, meets the
/// difficulty target, and sits at its own index.
pub open spec fn chain_valid(chain: Seq<BlockView>, difficulty: u32) -> bool {
    &&& chain.len() >= 1
    &&& is_genesis(chain[0])
    &&& forall|i: int|
        1 <= i < chain.len() ==> (#[trigger] chain[i]).previous_hash == chain[i - 1].hash
    &&& forall|i: int|
        1 <= i < chain.len() ==> leading_zeros((#[trigger] chain[i]).hash, difficulty as nat)
    &&& forall|i: int| 1 <= i < chain.len() ==> (#[trigger] chain[i]).index == i
}

/// How many transactions one mining step dequeues from a pool of `n`.
pub open spec fn batch_len(n: nat) -> nat {
    if n < BATCH_SIZE as nat {
        n
    } else {
        BATCH_SIZE as nat
    }
}

/// Whether every transaction of a batch carries a proof bundle that the
/// proof engine accepts.
pub open spec fn batch_ok(batch: Seq<TxView>) -> bool {
    forall|i: int|
        0 <= i < batch.len() ==> zk_verifies(
            (#[trigger] batch[i]).proof.proof,
            batch[i].proof.vk,
        )
}

/// The same block content with another nonce.
pub open spec fn with_nonce(b: BlockView, n: u64) -> BlockView {
    BlockView {
        index: b.index,
        timestamp: b.timestamp,
        previous_hash: b.previous_hash,
        nonce: n,
        transactions: b.transactions,
        hash: b.hash,
    }
}

/// Whether some nonce makes the block's content hash meet the difficulty.
pub open spec fn pow_feasible(b: BlockView, d: u32) -> bool {
    exists|n: u64| leading_zeros(computed_hash(with_nonce(b, n)), d as nat)
}

/// Hash integrity of a chain: every block's stored hash is the hash its
/// content denotes. It holds of every chain the library itself builds;
/// chain replacement and block gossip, which by design do not recompute
/// hashes, state their own weaker guarantees.
pub open spec fn chain_hashes_computed(chain: Seq<BlockView>) -> bool {
    forall|i: int|
        0 <= i < chain.len() ==> (#[trigger] chain[i]).hash == computed_hash(chain[i])
}

/// The coinbase transaction of a mined block: system-sent, unsigned,
/// crediting the miner with the mining reward around the given proof bundle.
pub open spec fn is_reward(t: TxView, miner: Seq<char>, p: ProofView) -> bool {
    &&& t.sender == system_sender()
    &&& t.recipient == miner
    &&& t.amount == MINING_REWARD
    &&& t.signature is None
    &&& t.proof == p
}

/// What one transaction credits to `a`.
pub open spec fn tx_credit(t: TxView, a: Seq<char>) -> int {
    if t.recipient == a {
        t.amount as int
    } else {
        0
    }
}

/// What one transaction debits from `a`.
pub open spec fn tx_debit(t: TxView, a: Seq<char>) -> int {
    if t.sender == a {
        t.amount as int
    } else {
        0
    }
}

/// The total credited to `a` over a transaction sequence.
pub open spec fn seq_credit(txs: Seq<TxView>, a: Seq<char>) -> int
    decreases txs.len(),
{
    if txs.len() == 0 {
        0
    } else {
        seq_credit(txs.drop_last(), a) + tx_credit(txs.last(), a)
    }
}

/// The total debited from `a` over a transaction sequence.
pub open spec fn seq_debit(txs: Seq<TxView>, a: Seq<char>) -> int
    decreases txs.len(),
{
    if txs.len() == 0 {
        0
    } else {
        seq_debit(txs.drop_last(), a) + tx_debit(txs.last(), a)
    }
}

/// The total credited to `a` over all transactions of a chain.
pub open spec fn chain_credit(chain: Seq<BlockView>, a: Seq<char>) -> int
    decreases chain.len(),
{
    if chain.len() == 0 {
        0
    } else {
        chain_credit(chain.drop_last(), a) + seq_credit(chain.last().transactions, a)
    }
}

/// The total debited from `a` over all transactions of a chain.
pub open spec fn chain_debit(chain: Seq<BlockView>, a: Seq<char>) -> int
    decreases chain.len(),
{
    if chain.len() == 0 {
        0
    } else {
        chain_debit(chain.drop_last(), a) + seq_debit(chain.last().transactions, a)
    }
}

/// An ordered chain of blocks starting at genesis, its FIFO queue of pending
/// transactions, and the proof-of-work difficulty.
#[derive(Debug)]
pub struct Blockchain {
    pub chain: Vec<Block>,
    pub pending_transactions: VecDeque<Transaction>,
    pub difficulty: u32,
}

impl Blockchain {
    /// The chain as a sequence of block views.
    pub open spec fn chain_view(&self) -> Seq<BlockView> {
        self.chain.deep_view()
    }

    /// The pending queue as a sequence of transaction views, front first.
    pub open spec fn pending_view(&self) -> Seq<TxView> {
        self.pending_transactions.deep_view()
    }

    /// Well-formedness: the chain is structurally valid at the chain's own
    /// difficulty. Constructors establish it and every operation preserves
    /// it.
    pub open spec fn wf(&self) -> bool {
        chain_valid(self.chain_view(), self.difficulty)
    }

    /// Creates a chain holding only the deterministic genesis block, with an
    /// empty pending queue and the default difficulty.
    pub fn new() -> (bc: Blockchain)
        ensures
            bc.wf(),
            bc.chain_view().len() == 1,
            is_genesis(bc.chain_view()[0]),
            bc.chain_view()[0].hash == computed_hash(bc.chain_view()[0]),
            chain_hashes_computed(bc.chain_view()),
            bc.pending_view().len() == 0,
            bc.difficulty == DIFFICULTY,
    {
        let mut blockchain = Blockchain {
            chain: Vec::new(),
            pending_transactions: VecDeque::new(),
            difficulty: DIFFICULTY,
        };
        let genesis_block = blockchain.create_genesis_block();
        blockchain.chain.push(genesis_block);
        proof {
            assert(blockchain.chain_view() =~= seq![blockchain.chain@[0]@]);
        }
        blockchain
    }

    /// Constructs the deterministic genesis block.
    pub fn create_genesis_block(&self) -> (b: Block)
        ensures
            is_genesis(b@),
            b@.hash == computed_hash(b@),
    {
        let b = Block::new_with_timestamp(0, 0, "0".to_owned(), Vec::new());
        proof {
            assert(b@.transactions =~= Seq::<TxView>::empty());
        }
        b
    }

    /// The current tip of the chain.
    pub fn get_latest_block(&self) -> (r: &Block)
        requires
            self.chain@.len() >= 1,
        ensures
            r@ == self.chain_view().last(),
    {
        let r = &self.chain[self.chain.len() - 1];
        proof {
            assert(self.chain_view().last() == self.chain@[self.chain@.len() - 1]@);
        }
        r
    }

    /// Admits a transaction to the pending queue exactly when it passes the
    /// validity gate; an invalid transaction is reported and dropped, and
    /// nothing else changes. The chain itself is never touched.
    pub fn add_transaction(&mut self, transaction: Transaction) -> (r: Result<(), ChainError>)
        ensures
            r is Ok <==> spec_tx_valid(transaction@),
            r is Ok ==> final(self).pending_view() == old(self).pending_view().push(transaction@),
            r is Err ==> r == Result::<(), ChainError>::Err(ChainError::InvalidTransaction)
                && final(self).pending_view() == old(self).pending_view(),
            final(self).chain_view() == old(self).chain_view(),
            final(self).difficulty == old(self).difficulty,
            old(self).wf() ==> final(self).wf(),
    {
        if !transaction.is_valid() {
            return Result::Err(ChainError::InvalidTransaction);
        }
        let ghost before = self.pending_transactions@;
        self.pending_transactions.push_back(transaction);
        proof {
            assert(final(self).pending_view() =~= old(self).pending_view().push(transaction@));
        }
        Result::Ok(())
    }

    /// Mines one block: dequeues up to `BATCH_SIZE` transactions, verifies
    /// each dequeued proof bundle, appends the coinbase crediting the miner,
    /// runs proof-of-work at the chain's difficulty, and appends the block.
    /// If any dequeued proof fails, the attempt aborts with `InvalidProof`
    /// and the dequeued batch is discarded; either way the batch leaves the
    /// pool. Mining from an empty pool succeeds and yields a block holding
    /// only the coinbase; at difficulty zero the first candidate is accepted
    /// and the nonce stays zero.
    pub fn mine_pending_transactions(&mut self, miner_address: &str, reward_proof: ProofData) -> (r:
        Result<(), ChainError>)
        requires
            old(self).wf(),
        ensures
            ({
                let m = batch_len(old(self).pending_view().len()) as int;
                let batch = old(self).pending_view().take(m);
                &&& final(self).pending_view() == old(self).pending_view().skip(m)
                &&& final(self).difficulty == old(self).difficulty
                &&& final(self).wf()
                &&& (r == Result::<(), ChainError>::Err(ChainError::InvalidProof) <==> !batch_ok(
                    batch,
                ))
                &&& (r is Err ==> final(self).chain_view() == old(self).chain_view())
                &&& (r is Ok || r == Result::<(), ChainError>::Err(ChainError::InvalidProof) || r
                    == Result::<(), ChainError>::Err(ChainError::MiningExhausted))
                &&& (r == Result::<(), ChainError>::Err(ChainError::MiningExhausted) ==> exists|
                    b: BlockView,
                |
                    {
                        &&& b.index == old(self).chain_view().len()
                        &&& b.previous_hash == old(self).chain_view().last().hash
                        &&& b.transactions.len() == m + 1
                        &&& b.transactions.take(m) == batch
                        &&& is_reward(b.transactions.last(), miner_address@, reward_proof@)
                        &&& !pow_feasible(b, old(self).difficulty)
                    })
                &&& (old(self).difficulty == 0 && batch_ok(batch) ==> r is Ok)
                &&& (old(self).pending_view().len() == 0 ==> r != Result::<(), ChainError>::Err(
                    ChainError::InvalidProof,
                ))
                &&& (chain_hashes_computed(old(self).chain_view()) ==> chain_hashes_computed(
                    final(self).chain_view(),
                ))
                &&& (r is Ok ==> {
                    let nb = final(self).chain_view().last();
                    &&& final(self).chain_view() == old(self).chain_view().push(nb)
                    &&& nb.index == old(self).chain_view().len()
                    &&& nb.previous_hash == old(self).chain_view().last().hash
                    &&& nb.transactions.len() == m + 1
                    &&& nb.transactions.take(m) == batch
                    &&& is_reward(nb.transactions.last(), miner_address@, reward_proof@)
                    &&& leading_zeros(nb.hash, old(self).difficulty as nat)
                    &&& nb.hash == computed_hash(nb)
                    &&& (old(self).difficulty == 0 ==> nb.nonce == 0)
                    &&& (old(self).pending_view().len() == 0 ==> nb.transactions.len() == 1)
                })
            }),
    {
        let previous_hash = self.chain[self.chain.len() - 1].hash.clone();
        let ghost q0 = self.pending_transactions@;
        let ghost m = batch_len(old(self).pending_view().len()) as int;
        let mut transactions: Vec<Transaction> = Vec::new();

        let mut i: usize = 0;
        while i < BATCH_SIZE && self.pending_transactions.len() > 0
            invariant
                i <= BATCH_SIZE,
                i as int <= q0.len(),
                transactions@ == q0.take(i as int),
                self.pending_transactions@ == q0.skip(i as int),
                self.chain == old(self).chain,
                self.difficulty == old(self).difficulty,
            decreases BATCH_SIZE - i,
        {
            let popped = self.pending_transactions.pop_front();
            match popped {
                Option::Some(tx) => {
                    proof {
                        assert(q0.skip(i as int)[0] == q0[i as int]);
                        assert(q0.skip(i as int).subrange(1, q0.skip(i as int).len() as int)
                            =~= q0.skip(i + 1));
                        assert(q0.take(i as int).push(q0[i as int]) =~= q0.take(i + 1));
                    }
                    transactions.push(tx);
                },
                Option::None => {},
            }
            i = i + 1;
        }
        proof {
            if i < BATCH_SIZE {
                assert(q0.skip(i as int).len() == 0);
                assert(i as int == q0.len());
            }
            assert(transactions@ =~= q0.take(m));
            assert(transactions.deep_view() =~= old(self).pending_view().take(m));
            assert(self.pending_transactions.deep_view() =~= old(self).pending_view().skip(m));
        }
        let ghost batch = old(self).pending_view().take(m);

        let mut j: usize = 0;
        #[verifier::loop_isolation(false)]
        while j < transactions.len()
            invariant
                j <= transactions@.len(),
                transactions.deep_view() == batch,
                forall|t: int|
                    0 <= t < j ==> zk_verifies(
                        (#[trigger] batch[t]).proof.proof,
                        batch[t].proof.vk,
                    ),
            decreases transactions@.len() - j,
        {
            if !verify_transaction_proof(&transactions[j].proof) {
                proof {
                    assert(batch[j as int] == transactions@[j as int]@);
                    assert(!zk_verifies(batch[j as int].proof.proof, batch[j as int].proof.vk));
                    assert(!batch_ok(batch));
                }
                return Result::Err(ChainError::InvalidProof);
            }
            proof {
                assert(batch[j as int] == transactions@[j as int]@);
            }
            j = j + 1;
        }

        let reward_tx = Transaction::new_reward(miner_address.to_owned(), reward_proof);
        transactions.push(reward_tx);
        proof {
            assert(transactions.deep_view() =~= batch.push(transactions@.last()@));
        }

        let index = self.chain.len() as u64;
        let mut block = Block::new(index, previous_hash, transactions);
        let ghost candidate = block@;
        let found = self.proof_of_work(&mut block);
        if !found {
            proof {
                assert(candidate.transactions.take(m) =~= batch);
                assert(!pow_feasible(candidate, old(self).difficulty));
                if old(self).difficulty == 0 {
                    assert(leading_zeros(computed_hash(with_nonce(candidate, 0u64)), 0));
                    assert(false);
                }
            }
            return Result::Err(ChainError::MiningExhausted);
        }
        let ghost nb = block@;
        self.chain.push(block);
        proof {
            let old_chain = old(self).chain_view();
            assert(final(self).chain_view() =~= old_chain.push(nb));
            assert(nb.transactions.take(m) =~= batch);
            assert(old_chain.last() == old(self).chain@[old(self).chain@.len() - 1]@);
            assert forall|t: int| 1 <= t < old_chain.push(nb).len() implies {
                &&& (#[trigger] old_chain.push(nb)[t]).previous_hash == old_chain.push(nb)[t
                    - 1].hash
                &&& leading_zeros(old_chain.push(nb)[t].hash, old(self).difficulty as nat)
                &&& old_chain.push(nb)[t].index == t
            } by {
                if t < old_chain.len() {
                    assert(old_chain.push(nb)[t] == old_chain[t]);
                    if t >= 1 {
                        assert(old_chain.push(nb)[t - 1] == old_chain[t - 1]);
                    }
                }
            }
            assert(final(self).wf());
        }
        Result::Ok(())
    }

    /// Derives a balance by scanning the whole chain: every transaction
    /// crediting `address` adds its amount, every one sent by `address`
    /// subtracts it, and a negative net is clamped to zero at the end. The
    /// totals must fit the machine arithmetic used for the scan.
    pub fn get_balance(&self, address: &str) -> (r: u64)
        requires
            chain_credit(self.chain_view(), address@) <= i64::MAX,
            chain_debit(self.chain_view(), address@) <= i64::MAX,
        ensures
            r as int == {
                let c = chain_credit(self.chain_view(), address@);
                let d = chain_debit(self.chain_view(), address@);
                if c >= d {
                    c - d
                } else {
                    0
                }
            },
    {
        let ghost cv = self.chain_view();
        let ghost a = address@;
        let mut credits: u64 = 0;
        let mut debits: u64 = 0;
        let mut bi: usize = 0;
        while bi < self.chain.len()
            invariant
                bi <= cv.len(),
                cv == self.chain_view(),
                a == address@,
                chain_credit(cv, a) <= i64::MAX,
                chain_debit(cv, a) <= i64::MAX,
                credits as int == chain_credit(cv.take(bi as int), a),
                debits as int == chain_debit(cv.take(bi as int), a),
            decreases cv.len() - bi,
        {
            let b = &self.chain[bi];
            let ghost txs = cv[bi as int].transactions;
            let mut ti: usize = 0;
            while ti < b.transactions.len()
                invariant
                    ti <= txs.len(),
                    cv == self.chain_view(),
                    a == address@,
                    bi < cv.len(),
                    b == self.chain@[bi as int],
                    txs == cv[bi as int].transactions,
                    txs.len() == b.transactions@.len(),
                    chain_credit(cv, a) <= i64::MAX,
                    chain_debit(cv, a) <= i64::MAX,
                    credits as int == chain_credit(cv.take(bi as int), a) + seq_credit(
                        txs.take(ti as int),
                        a,
                    ),
                    debits as int == chain_debit(cv.take(bi as int), a) + seq_debit(
                        txs.take(ti as int),
                        a,
                    ),
                decreases txs.len() - ti,
            {
                let tx = &b.transactions[ti];
                proof {
                    assert(txs[ti as int] == b.transactions@[ti as int]@);
                    assert(txs.take(ti + 1).drop_last() =~= txs.take(ti as int));
                    lemma_prefix_credit_bound(cv, a, bi as int, ti + 1);
                    lemma_prefix_debit_bound(cv, a, bi as int, ti + 1);
                }
                let addr_owned = address.to_owned();
                if tx.recipient == addr_owned {
                    credits = credits + tx.amount;
                }
                if tx.sender == addr_owned {
                    debits = debits + tx.amount;
                }
                ti = ti + 1;
            }
            proof {
                assert(txs.take(txs.len() as int) =~= txs);
                assert(cv.take(bi + 1).drop_last() =~= cv.take(bi as int));
                assert(cv.take(bi + 1).last() == cv[bi as int]);
            }
            bi = bi + 1;
        }
        proof {
            assert(cv.take(cv.len() as int) =~= cv);
        }
        if credits >= debits {
            credits - debits
        } else {
            0
        }
    }


    /// Derives a balance like `get_balance`, but itself detects totals too
    /// large for the scan's machine arithmetic: `None` exactly when the
    /// chain-wide credit or debit total for `address` exceeds `i64::MAX`,
    /// and otherwise the clamped balance `get_balance` would return.
    pub fn try_get_balance(&self, address: &str) -> (r: Option<u64>)
        ensures
            r is Some <==> chain_credit(self.chain_view(), address@) <= i64::MAX && chain_debit(
                self.chain_view(),
                address@,
            ) <= i64::MAX,
            r is Some ==> r.unwrap() as int == {
                let c = chain_credit(self.chain_view(), address@);
                let d = chain_debit(self.chain_view(), address@);
                if c >= d {
                    c - d
                } else {
                    0
                }
            },
    {
        let ghost cv = self.chain_view();
        let ghost a = address@;
        let cap: u128 = 0x7FFF_FFFF_FFFF_FFFFu128;
        let mut credits: u128 = 0;
        let mut debits: u128 = 0;
        let mut over_c = false;
        let mut over_d = false;
        let mut bi: usize = 0;
        #[verifier::loop_isolation(false)]
        while bi < self.chain.len()
            invariant
                bi <= cv.len(),
                !over_c ==> credits == chain_credit(cv.take(bi as int), a) && credits <= cap,
                !over_d ==> debits == chain_debit(cv.take(bi as int), a) && debits <= cap,
                over_c ==> chain_credit(cv, a) > cap,
                over_d ==> chain_debit(cv, a) > cap,
            decreases cv.len() - bi,
        {
            let b = &self.chain[bi];
            let ghost txs = cv[bi as int].transactions;
            let mut ti: usize = 0;
            #[verifier::loop_isolation(false)]
            while ti < b.transactions.len()
                invariant
                    ti <= txs.len(),
                    bi < cv.len(),
                    b == self.chain@[bi as int],
                    txs == cv[bi as int].transactions,
                    txs.len() == b.transactions@.len(),
                    !over_c ==> credits == chain_credit(cv.take(bi as int), a) + seq_credit(
                        txs.take(ti as int),
                        a,
                    ) && credits <= cap,
                    !over_d ==> debits == chain_debit(cv.take(bi as int), a) + seq_debit(
                        txs.take(ti as int),
                        a,
                    ) && debits <= cap,
                    over_c ==> chain_credit(cv, a) > cap,
                    over_d ==> chain_debit(cv, a) > cap,
                decreases txs.len() - ti,
            {
                let tx = &b.transactions[ti];
                proof {
                    assert(txs[ti as int] == b.transactions@[ti as int]@);
                    assert(txs.take(ti + 1).drop_last() =~= txs.take(ti as int));
                    lemma_prefix_credit_bound(cv, a, bi as int, ti + 1);
                    lemma_prefix_debit_bound(cv, a, bi as int, ti + 1);
                    lemma_chain_credit_nonneg_all(cv.take(bi as int), a);
                    lemma_chain_debit_nonneg_all(cv.take(bi as int), a);
                    lemma_seq_credit_nonneg(txs.take(ti as int), a);
                    lemma_seq_debit_nonneg(txs.take(ti as int), a);
                }
                let addr_owned = address.to_owned();
                if tx.recipient == addr_owned && !over_c {
                    if credits + (tx.amount as u128) > cap {
                        over_c = true;
                    } else {
                        credits = credits + (tx.amount as u128);
                    }
                }
                if tx.sender == addr_owned && !over_d {
                    if debits + (tx.amount as u128) > cap {
                        over_d = true;
                    } else {
                        debits = debits + (tx.amount as u128);
                    }
                }
                ti = ti + 1;
            }
            proof {
                assert(txs.take(txs.len() as int) =~= txs);
                assert(cv.take(bi + 1).drop_last() =~= cv.take(bi as int));
                assert(cv.take(bi + 1).last() == cv[bi as int]);
            }
            bi = bi + 1;
        }
        proof {
            assert(cv.take(cv.len() as int) =~= cv);
        }
        if over_c || over_d {
            return Option::None;
        }
        if credits >= debits {
            Option::Some((credits - debits) as u64)
        } else {
            Option::Some(0)
        }
    }

    /// Searches for a nonce whose block hash meets the chain's difficulty,
    /// trying every nonce in order and rehashing after each increment. Only
    /// `nonce` and `hash` change. Returns whether some nonce succeeded: the
    /// search fails only when no nonce at all makes the content meet the
    /// difficulty. At difficulty zero the block is accepted as it stands.
    fn proof_of_work(&self, block: &mut Block) -> (found: bool)
        requires
            old(block)@.hash == computed_hash(old(block)@),
            old(block)@.nonce == 0,
        ensures
            final(block)@.index == old(block)@.index,
            final(block)@.timestamp == old(block)@.timestamp,
            final(block)@.previous_hash == old(block)@.previous_hash,
            final(block)@.transactions == old(block)@.transactions,
            final(block)@.hash == computed_hash(final(block)@),
            found == pow_feasible(old(block)@, self.difficulty),
            found ==> leading_zeros(final(block)@.hash, self.difficulty as nat),
            self.difficulty == 0 ==> final(block)@ == old(block)@,
    {
        if meets_difficulty(block.hash.as_str(), self.difficulty) {
            proof {
                assert(with_nonce(old(block)@, 0u64) == old(block)@);
                assert(pow_feasible(old(block)@, self.difficulty));
            }
            return true;
        }
        proof {
            assert(with_nonce(old(block)@, 0u64) == old(block)@);
            if self.difficulty == 0 {
                assert(leading_zeros(old(block)@.hash, 0));
                assert(false);
            }
        }
        let mut n: u64 = 0;
        #[verifier::loop_isolation(false)]
        while n < u64::MAX
            invariant
                block@.index == old(block)@.index,
                block@.timestamp == old(block)@.timestamp,
                block@.previous_hash == old(block)@.previous_hash,
                block@.transactions == old(block)@.transactions,
                block@.nonce == n,
                block@.hash == computed_hash(block@),
                forall|k: u64|
                    k <= n ==> !leading_zeros(
                        computed_hash(with_nonce(old(block)@, k)),
                        self.difficulty as nat,
                    ),
            decreases u64::MAX - n,
        {
            n = n + 1;
            block.nonce = n;
            let h = block.calculate_hash();
            let ghost before = block@;
            block.hash = h;
            proof {
                assert(crate::codec::block_core_json(block@) == crate::codec::block_core_json(
                    before,
                ));
                assert(crate::codec::block_core_json(with_nonce(old(block)@, n))
                    == crate::codec::block_core_json(block@));
            }
            if meets_difficulty(block.hash.as_str(), self.difficulty) {
                proof {
                    assert(leading_zeros(
                        computed_hash(with_nonce(old(block)@, n)),
                        self.difficulty as nat,
                    ));
                    assert(pow_feasible(old(block)@, self.difficulty));
                }
                return true;
            }
        }
        proof {
            assert forall|k: u64|
                !leading_zeros(
                    computed_hash(with_nonce(old(block)@, k)),
                    self.difficulty as nat,
                ) by {
                assert(k <= u64::MAX);
            }
            assert(!pow_feasible(old(block)@, self.difficulty));
        }
        false
    }

    /// Applies the longest-chain rule: the candidate replaces the local
    /// chain exactly when it is strictly longer and structurally valid at
    /// the local difficulty; otherwise the replacement is rejected and
    /// nothing changes. Offering a chain of the local chain's own length is
    /// always rejected, so replaying the local chain is a no-op.
    pub fn replace_chain(&mut self, candidate: Vec<Block>) -> (r: Result<(), ChainError>)
        requires
            old(self).wf(),
        ensures
            r is Ok <==> candidate.deep_view().len() > old(self).chain_view().len() && chain_valid(
                candidate.deep_view(),
                old(self).difficulty,
            ),
            r is Ok ==> final(self).chain_view() == candidate.deep_view(),
            r is Err ==> r == Result::<(), ChainError>::Err(ChainError::ChainReplacementRejected)
                && final(self).chain_view() == old(self).chain_view(),
            final(self).pending_view() == old(self).pending_view(),
            final(self).difficulty == old(self).difficulty,
            final(self).wf(),
    {
        if candidate.len() <= self.chain.len() {
            return Result::Err(ChainError::ChainReplacementRejected);
        }
        if !is_valid_chain(&candidate, self.difficulty) {
            return Result::Err(ChainError::ChainReplacementRejected);
        }
        self.chain = candidate;
        Result::Ok(())
    }

    /// Appends a single gossiped block exactly when it extends the current
    /// tip: its previous hash matches the tip's hash, its hash meets the
    /// local difficulty, and its index is the next index. Anything else is
    /// ignored.
    pub fn try_add_block(&mut self, block: Block) -> (r: bool)
        requires
            old(self).wf(),
        ensures
            r <==> {
                &&& block@.previous_hash == old(self).chain_view().last().hash
                &&& leading_zeros(block@.hash, old(self).difficulty as nat)
                &&& block@.index == old(self).chain_view().len()
            },
            r ==> final(self).chain_view() == old(self).chain_view().push(block@),
            !r ==> final(self).chain_view() == old(self).chain_view(),
            final(self).pending_view() == old(self).pending_view(),
            final(self).difficulty == old(self).difficulty,
            final(self).wf(),
            chain_hashes_computed(old(self).chain_view()) && block@.hash == computed_hash(block@)
                ==> chain_hashes_computed(final(self).chain_view()),
    {
        proof {
            assert(self.chain_view().last() == self.chain@[self.chain@.len() - 1]@);
        }
        let n = self.chain.len();
        if !(block.previous_hash == self.chain[n - 1].hash) {
            return false;
        }
        if !meets_difficulty(block.hash.as_str(), self.difficulty) {
            return false;
        }
        if !(block.index == n as u64) {
            return false;
        }
        let ghost nb = block@;
        self.chain.push(block);
        proof {
            let old_chain = old(self).chain_view();
            assert(final(self).chain_view() =~= old_chain.push(nb));
            assert forall|t: int| 1 <= t < old_chain.push(nb).len() implies {
                &&& (#[trigger] old_chain.push(nb)[t]).previous_hash == old_chain.push(nb)[t
                    - 1].hash
                &&& leading_zeros(old_chain.push(nb)[t].hash, old(self).difficulty as nat)
                &&& old_chain.push(nb)[t].index == t
            } by {
                if t < old_chain.len() {
                    assert(old_chain.push(nb)[t] == old_chain[t]);
                    if t >= 1 {
                        assert(old_chain.push(nb)[t - 1] == old_chain[t - 1]);
                    }
                }
            }
        }
        true
    }

    /// Renders the snapshot document: chain, pending queue and difficulty as
    /// one JSON object.
    pub fn snapshot_bytes(&self) -> (r: Vec<u8>)
        ensures
            r@ == snapshot_json(self.chain_view(), self.pending_view(), self.difficulty),
    {
        let mut out: Vec<u8> = Vec::new();
        emit_snapshot_json(&mut out, &self.chain, &self.pending_transactions, self.difficulty);
        out
    }
}

/// Checks a chain's structural validity at the given difficulty.
pub fn is_valid_chain(bs: &Vec<Block>, difficulty: u32) -> (r: bool)
    ensures
        r == chain_valid(bs.deep_view(), difficulty),
{
    let ghost cv = bs.deep_view();
    if bs.len() == 0 {
        return false;
    }
    let b0 = &bs[0];
    if !(b0.index == 0 && b0.timestamp == 0 && b0.nonce == 0 && b0.transactions.len() == 0) {
        return false;
    }
    if !(b0.previous_hash == "0".to_owned()) {
        return false;
    }
    proof {
        assert(cv[0] == bs@[0]@);
        assert(cv[0].transactions.len() == bs@[0].transactions@.len());
        assert(is_genesis(cv[0]));
    }
    let mut i: usize = 1;
    while i < bs.len()
        invariant
            1 <= i <= cv.len(),
            cv == bs.deep_view(),
            cv.len() == bs@.len(),
            forall|j: int| 1 <= j < i ==> (#[trigger] cv[j]).previous_hash == cv[j - 1].hash,
            forall|j: int| 1 <= j < i ==> leading_zeros((#[trigger] cv[j]).hash, difficulty as nat),
            forall|j: int| 1 <= j < i ==> (#[trigger] cv[j]).index == j,
        decreases cv.len() - i,
    {
        proof {
            assert(cv[i as int] == bs@[i as int]@);
            assert(cv[i - 1] == bs@[i - 1]@);
        }
        if !(bs[i].previous_hash == bs[i - 1].hash) {
            return false;
        }
        if !meets_difficulty(bs[i].hash.as_str(), difficulty) {
            return false;
        }
        if !(bs[i].index == i as u64) {
            return false;
        }
        i = i + 1;
    }
    true
}

/// Every prefix credit total is bounded by the whole chain's credit total:
/// `chain_credit(cv.take(bi)) + seq_credit(cv[bi].transactions.take(ti))`
/// never exceeds `chain_credit(cv)`.
proof fn lemma_prefix_credit_bound(cv: Seq<BlockView>, a: Seq<char>, bi: int, ti: int)
    requires
        0 <= bi < cv.len(),
        0 <= ti <= cv[bi].transactions.len(),
    ensures
        chain_credit(cv.take(bi), a) + seq_credit(cv[bi].transactions.take(ti), a) <= chain_credit(
            cv,
            a,
        ),
{
    lemma_seq_credit_prefix(cv[bi].transactions, a, ti);
    assert(cv.take(bi + 1).drop_last() =~= cv.take(bi));
    assert(cv.take(bi + 1).last() == cv[bi]);
    lemma_chain_credit_prefix(cv, a, bi + 1);
}

/// The debit counterpart of the prefix credit bound.
proof fn lemma_prefix_debit_bound(cv: Seq<BlockView>, a: Seq<char>, bi: int, ti: int)
    requires
        0 <= bi < cv.len(),
        0 <= ti <= cv[bi].transactions.len(),
    ensures
        chain_debit(cv.take(bi), a) + seq_debit(cv[bi].transactions.take(ti), a) <= chain_debit(
            cv,
            a,
        ),
{
    lemma_seq_debit_prefix(cv[bi].transactions, a, ti);
    assert(cv.take(bi + 1).drop_last() =~= cv.take(bi));
    assert(cv.take(bi + 1).last() == cv[bi]);
    lemma_chain_debit_prefix(cv, a, bi + 1);
}

/// A credit total over a prefix never exceeds the total over the whole
/// sequence.
proof fn lemma_seq_credit_prefix(txs: Seq<TxView>, a: Seq<char>, i: int)
    requires
        0 <= i <= txs.len(),
    ensures
        seq_credit(txs.take(i), a) <= seq_credit(txs, a),
    decreases txs.len(),
{
    if i < txs.len() {
        assert(txs.drop_last().take(i) =~= txs.take(i));
        lemma_seq_credit_prefix(txs.drop_last(), a, i);
    } else {
        assert(txs.take(i) =~= txs);
    }
}

/// The debit counterpart of the sequence prefix bound.
proof fn lemma_seq_debit_prefix(txs: Seq<TxView>, a: Seq<char>, i: int)
    requires
        0 <= i <= txs.len(),
    ensures
        seq_debit(txs.take(i), a) <= seq_debit(txs, a),
    decreases txs.len(),
{
    if i < txs.len() {
        assert(txs.drop_last().take(i) =~= txs.take(i));
        lemma_seq_debit_prefix(txs.drop_last(), a, i);
    } else {
        assert(txs.take(i) =~= txs);
    }
}

/// A chain-credit total over a prefix never exceeds the total over the
/// whole chain.
proof fn lemma_chain_credit_prefix(cv: Seq<BlockView>, a: Seq<char>, i: int)
    requires
        0 <= i <= cv.len(),
    ensures
        chain_credit(cv.take(i), a) <= chain_credit(cv, a),
    decreases cv.len(),
{
    if i < cv.len() {
        assert(cv.drop_last().take(i) =~= cv.take(i));
        lemma_chain_credit_prefix(cv.drop_last(), a, i);
        lemma_seq_credit_nonneg(cv.last().transactions, a);
    } else {
        assert(cv.take(i) =~= cv);
    }
}

/// The debit counterpart of the chain prefix bound.
proof fn lemma_chain_debit_prefix(cv: Seq<BlockView>, a: Seq<char>, i: int)
    requires
        0 <= i <= cv.len(),
    ensures
        chain_debit(cv.take(i), a) <= chain_debit(cv, a),
    decreases cv.len(),
{
    if i < cv.len() {
        assert(cv.drop_last().take(i) =~= cv.take(i));
        lemma_chain_debit_prefix(cv.drop_last(), a, i);
        lemma_seq_debit_nonneg(cv.last().transactions, a);
    } else {
        assert(cv.take(i) =~= cv);
    }
}


/// Chain credits never sum to a negative value.
proof fn lemma_chain_credit_nonneg_all(cv: Seq<BlockView>, a: Seq<char>)
    ensures
        chain_credit(cv, a) >= 0,
    decreases cv.len(),
{
    if cv.len() > 0 {
        lemma_chain_credit_nonneg_all(cv.drop_last(), a);
        lemma_seq_credit_nonneg(cv.last().transactions, a);
    }
}

/// Chain debits never sum to a negative value.
proof fn lemma_chain_debit_nonneg_all(cv: Seq<BlockView>, a: Seq<char>)
    ensures
        chain_debit(cv, a) >= 0,
    decreases cv.len(),
{
    if cv.len() > 0 {
        lemma_chain_debit_nonneg_all(cv.drop_last(), a);
        lemma_seq_debit_nonneg(cv.last().transactions, a);
    }
}

/// Credits never sum to a negative value.
proof fn lemma_seq_credit_nonneg(txs: Seq<TxView>, a: Seq<char>)
    ensures
        seq_credit(txs, a) >= 0,
    decreases txs.len(),
{
    if txs.len() > 0 {
        lemma_seq_credit_nonneg(txs.drop_last(), a);
    }
}

/// Debits never sum to a negative value.
proof fn lemma_seq_debit_nonneg(txs: Seq<TxView>, a: Seq<char>)
    ensures
        seq_debit(txs, a) >= 0,
    decreases txs.len(),
{
    if txs.len() > 0 {
        lemma_seq_debit_nonneg(txs.drop_last(), a);
    }
}

/// Every block of a well-formed chain links to its predecessor:
/// `chain[i].previous_hash == chain[i-1].hash` for all `i > 0`.
pub proof fn lemma_chain_linked(bc: &Blockchain)
    requires
        bc.wf(),
    ensures
        forall|i: int|
            1 <= i < bc.chain_view().len() ==> (#[trigger] bc.chain_view()[i]).previous_hash
                == bc.chain_view()[i - 1].hash,
{
}

/// Every non-genesis block of a well-formed chain meets the chain's
/// difficulty: its hash starts with `difficulty` `'0'` characters.
pub proof fn lemma_chain_difficulty(bc: &Blockchain)
    requires
        bc.wf(),
    ensures
        forall|i: int|
            1 <= i < bc.chain_view().len() ==> leading_zeros(
                (#[trigger] bc.chain_view()[i]).hash,
                bc.difficulty as nat,
            ),
{
}

/// A well-formed chain starts with the deterministic genesis block: index
/// 0, previous hash `"0"`, and no transactions.
pub proof fn lemma_chain_genesis(bc: &Blockchain)
    requires
        bc.wf(),
    ensures
        bc.chain_view().len() >= 1,
        is_genesis(bc.chain_view()[0]),
{
}

/// A sender that never overspends cannot end with more debited than
/// credited: if, at each of its outgoing transactions, the credits received
/// so far cover all debits up to and including that transaction, then over
/// the whole sequence the debits stay within the credits, and the derived
/// balance is exactly credits minus debits.
pub proof fn lemma_well_behaved_balance(txs: Seq<TxView>, a: Seq<char>)
    requires
        forall|k: int|
            0 <= k < txs.len() && (#[trigger] txs[k]).sender == a ==> seq_debit(txs.take(k + 1), a)
                <= seq_credit(txs.take(k), a),
    ensures
        seq_debit(txs, a) <= seq_credit(txs, a),
    decreases txs.len(),
{
    if txs.len() > 0 {
        let n = txs.len() as int;
        let prev = txs.drop_last();
        assert(prev =~= txs.take(n - 1));
        if txs.last().sender == a {
            assert(txs.take(n) =~= txs);
            lemma_seq_credit_prefix(txs, a, n - 1);
        } else {
            assert forall|k: int|
                0 <= k < prev.len() && (#[trigger] prev[k]).sender == a implies seq_debit(
                prev.take(k + 1),
                a,
            ) <= seq_credit(prev.take(k), a) by {
                assert(prev.take(k + 1) =~= txs.take(k + 1));
                assert(prev.take(k) =~= txs.take(k));
                assert(txs[k] == prev[k]);
            }
            lemma_well_behaved_balance(prev, a);
            lemma_seq_credit_prefix(txs, a, n - 1);
        }
    }
}

/// The chain-level form of the overspend law: summing block by block equals
/// summing over the flattened transaction sequence.
pub open spec fn chain_txs(chain: Seq<BlockView>) -> Seq<TxView>
    decreases chain.len(),
{
    if chain.len() == 0 {
        Seq::empty()
    } else {
        chain_txs(chain.drop_last()) + chain.last().transactions
    }
}

/// Credit sums distribute over concatenation.
proof fn lemma_seq_credit_concat(s1: Seq<TxView>, s2: Seq<TxView>, a: Seq<char>)
    ensures
        seq_credit(s1 + s2, a) == seq_credit(s1, a) + seq_credit(s2, a),
    decreases s2.len(),
{
    if s2.len() == 0 {
        assert(s1 + s2 =~= s1);
    } else {
        assert((s1 + s2).drop_last() =~= s1 + s2.drop_last());
        assert((s1 + s2).last() == s2.last());
        lemma_seq_credit_concat(s1, s2.drop_last(), a);
    }
}

/// Debit sums distribute over concatenation.
proof fn lemma_seq_debit_concat(s1: Seq<TxView>, s2: Seq<TxView>, a: Seq<char>)
    ensures
        seq_debit(s1 + s2, a) == seq_debit(s1, a) + seq_debit(s2, a),
    decreases s2.len(),
{
    if s2.len() == 0 {
        assert(s1 + s2 =~= s1);
    } else {
        assert((s1 + s2).drop_last() =~= s1 + s2.drop_last());
        assert((s1 + s2).last() == s2.last());
        lemma_seq_debit_concat(s1, s2.drop_last(), a);
    }
}

/// The block-by-block credit total equals the total over the flattened
/// transaction sequence; likewise for debits.
pub proof fn lemma_chain_sums_flatten(chain: Seq<BlockView>, a: Seq<char>)
    ensures
        chain_credit(chain, a) == seq_credit(chain_txs(chain), a),
        chain_debit(chain, a) == seq_debit(chain_txs(chain), a),
    decreases chain.len(),
{
    if chain.len() > 0 {
        lemma_chain_sums_flatten(chain.drop_last(), a);
        lemma_seq_credit_concat(chain_txs(chain.drop_last()), chain.last().transactions, a);
        lemma_seq_debit_concat(chain_txs(chain.drop_last()), chain.last().transactions, a);
    }
}

/// The overspend law over a whole chain: if a wallet never overspends in
/// the chain's transaction order, its chain-wide debits stay within its
/// credits, so its derived balance equals credits minus debits.
pub proof fn lemma_chain_well_behaved_balance(chain: Seq<BlockView>, a: Seq<char>)
    requires
        forall|k: int|
            0 <= k < chain_txs(chain).len() && (#[trigger] chain_txs(chain)[k]).sender == a
                ==> seq_debit(chain_txs(chain).take(k + 1), a) <= seq_credit(
                chain_txs(chain).take(k),
                a,
            ),
    ensures
        chain_debit(chain, a) <= chain_credit(chain, a),
{
    lemma_chain_sums_flatten(chain, a);
    lemma_well_behaved_balance(chain_txs(chain), a);
}


/// What handling one wire message did to the chain.
#[derive(Clone, Copy, Debug, PartialEq, Eq, Structural)]
pub enum MessageOutcome {
    /// A chain offer was longer and valid: the local chain was replaced.
    ChainReplaced,
    /// A chain offer was rejected; the local chain stands.
    ChainRejected,
    /// A block offer extended the tip and was appended.
    BlockAppended,
    /// A block offer did not extend the tip and was ignored.
    BlockIgnored,
    /// The message parsed as neither offer; nothing changed.
    Unhandled,
}

impl Blockchain {
    /// Applies one wire message: a chain offer goes through the
    /// longest-chain rule, a block offer is appended when it extends the
    /// tip, and anything else is ignored. The pending queue and difficulty
    /// are never touched.
    pub fn handle_message(&mut self, msg: &[u8]) -> (r: MessageOutcome)
        requires
            old(self).wf(),
        ensures
            final(self).pending_view() == old(self).pending_view(),
            final(self).difficulty == old(self).difficulty,
            final(self).wf(),
            match crate::parse::sp_chain_msg(msg@) {
                Option::Some(c) => {
                    &&& (r == MessageOutcome::ChainReplaced <==> c.len()
                        > old(self).chain_view().len() && chain_valid(c, old(self).difficulty))
                    &&& (r == MessageOutcome::ChainReplaced ==> final(self).chain_view() == c)
                    &&& (r == MessageOutcome::ChainRejected ==> final(self).chain_view() == old(
                        self,
                    ).chain_view())
                    &&& (r == MessageOutcome::ChainReplaced || r == MessageOutcome::ChainRejected)
                },
                Option::None => match crate::parse::sp_new_block_msg(msg@) {
                    Option::Some(b) => {
                        &&& (r == MessageOutcome::BlockAppended <==> b.previous_hash == old(
                            self,
                        ).chain_view().last().hash && leading_zeros(
                            b.hash,
                            old(self).difficulty as nat,
                        ) && b.index == old(self).chain_view().len())
                        &&& (r == MessageOutcome::BlockAppended ==> final(self).chain_view()
                            == old(self).chain_view().push(b))
                        &&& (r == MessageOutcome::BlockIgnored ==> final(self).chain_view()
                            == old(self).chain_view())
                        &&& (r == MessageOutcome::BlockAppended || r
                            == MessageOutcome::BlockIgnored)
                    },
                    Option::None => r == MessageOutcome::Unhandled && final(self).chain_view()
                        == old(self).chain_view(),
                },
            },
    {
        match crate::parse::parse_chain_msg(msg) {
            Option::Some(chain) => match self.replace_chain(chain) {
                Result::Ok(_) => MessageOutcome::ChainReplaced,
                Result::Err(_) => MessageOutcome::ChainRejected,
            },
            Option::None => match crate::parse::parse_new_block_msg(msg) {
                Option::Some(b) => {
                    if self.try_add_block(b) {
                        MessageOutcome::BlockAppended
                    } else {
                        MessageOutcome::BlockIgnored
                    }
                },
                Option::None => MessageOutcome::Unhandled,
            },
        }
    }
}

} // verus!
