//! Blocks: indexed, hash-linked containers of transactions with a
//! proof-of-work nonce, hashed over the canonical rendering of their content.

use vstd::prelude::*;
use crate::codec::block_core_json;
use crate::crypto::now_ts;
use crate::crypto::sha256_digest;
use crate::crypto::sha256_of;
use crate::hexcode::hex_encode;
use crate::hexcode::hex_encode_bytes;
use crate::transaction::Transaction;
use crate::transaction::TxView;

verus! {

/// An indexed container of transactions, linked to its predecessor by
/// `previous_hash` and carrying its own content hash and proof-of-work
/// nonce. `timestamp` is treated as data and never validated.
#[derive(Clone, Debug)]
pub struct Block {
    pub index: u64,
    pub timestamp: i64,
    pub previous_hash: String,
    pub nonce: u64,
    pub transactions: Vec<Transaction>,
    pub hash: String,
}

/// The view of a block: its fields as mathematical values.
pub struct BlockView {
    pub index: u64,
    pub timestamp: i64,
    pub previous_hash: Seq<char>,
    pub nonce: u64,
    pub transactions: Seq<TxView>,
    pub hash: Seq<char>,
}

impl View for Block {
    type V = BlockView;

    open spec fn view(&self) -> BlockView {
        BlockView {
            index: self.index,
            timestamp: self.timestamp,
            previous_hash: self.previous_hash@,
            nonce: self.nonce,
            transactions: self.transactions.deep_view(),
            hash: self.hash@,
        }
    }
}

impl DeepView for Block {
    type V = BlockView;

    open spec fn deep_view(&self) -> BlockView {
        self.view()
    }
}

/// The hash a block's content denotes: the SHA-256 of the canonical
/// rendering of every field but `hash` itself, as lowercase hex. Excluding
/// the `hash` field makes the stored hash a pure function of the block's
/// content.
pub open spec fn computed_hash(b: BlockView) -> Seq<char> {
    hex_encode(sha256_of(block_core_json(b)))
}

/// Whether a hash string starts with `d` `'0'` characters.
pub open spec fn leading_zeros(h: Seq<char>, d: nat) -> bool {
    &&& d <= h.len()
    &&& forall|i: int| 0 <= i < d ==> h[i] == '0'
}

/// Checks whether a hash string starts with `difficulty` `'0'` characters.
/// A difficulty of zero accepts any hash.
pub fn meets_difficulty(hash: &str, difficulty: u32) -> (r: bool)
    ensures
        r == leading_zeros(hash@, difficulty as nat),
{
    let n = hash.unicode_len();
    if difficulty as usize > n {
        return false;
    }
    let mut i: usize = 0;
    while i < difficulty as usize
        invariant
            i <= difficulty as usize,
            difficulty as usize <= hash@.len(),
            forall|j: int| 0 <= j < i ==> hash@[j] == '0',
        decreases difficulty as usize - i,
    {
        if hash.get_char(i) != '0' {
            return false;
        }
        i = i + 1;
    }
    true
}

/// A difficulty of zero accepts any hash: the proof-of-work target is met
/// by every hash string at difficulty zero.
pub proof fn lemma_difficulty_zero_accepts(h: Seq<char>)
    ensures
        leading_zeros(h, 0),
{
}

impl Block {
    /// Constructs a block over the given transactions, recording the current
    /// clock reading, a zero nonce, and the hash of the resulting content.
    pub fn new(index: u64, previous_hash: String, transactions: Vec<Transaction>) -> (b: Block)
        ensures
            b@.index == index,
            b@.previous_hash == previous_hash@,
            b@.nonce == 0,
            b@.transactions == transactions.deep_view(),
            b@.hash == computed_hash(b@),
    {
        let timestamp = now_ts();
        Block::new_with_timestamp(index, timestamp, previous_hash, transactions)
    }

    /// Constructs a block with an explicit timestamp; the hash is computed
    /// from the resulting content.
    pub fn new_with_timestamp(
        index: u64,
        timestamp: i64,
        previous_hash: String,
        transactions: Vec<Transaction>,
    ) -> (b: Block)
        ensures
            b@.index == index,
            b@.timestamp == timestamp,
            b@.previous_hash == previous_hash@,
            b@.nonce == 0,
            b@.transactions == transactions.deep_view(),
            b@.hash == computed_hash(b@),
    {
        let mut block = Block {
            index,
            timestamp,
            previous_hash,
            nonce: 0,
            transactions,
            hash: String::new(),
        };
        let h = block.calculate_hash();
        let ghost before = block@;
        block.hash = h;
        proof {
            assert(block_core_json(block@) == block_core_json(before));
        }
        block
    }

    /// The hash the block's current content denotes: canonical rendering,
    /// SHA-256, lowercase hex. The stored `hash` field is not part of the
    /// input.
    pub fn calculate_hash(&self) -> (r: String)
        ensures
            r@ == computed_hash(self@),
    {
        let mut content: Vec<u8> = Vec::new();
        crate::codec::emit_block_core_json(&mut content, self);
        let digest = sha256_digest(content.as_slice());
        hex_encode_bytes(digest.as_slice())
    }
}

} // verus!
