//! Blocks, mined by proof of work over the Merkle root of their transactions.
use crate::bytes::copy_bytes;
use crate::clock::now_millis;
use crate::codec::{
    bincode_bytes, bincode_hash_content, bincode_str, i32_le, le_bytes, lemma_i32_le_injective,
    serialize_hash_content, u64_le,
};
use crate::digest::{hex_ascii, hex_chars, lemma_hex_chars_utf8, sha256_hex, sha256_spec};
use crate::error::BlockchainError;
use crate::merkle::{merkle_root, merkle_root_spec};
use crate::transaction::{transaction_bytes, Transaction, TransactionModel};
use crate::tx::{clone_inputs, clone_outputs};
use vstd::prelude::*;

verus! {

/// The number of leading hexadecimal zeros that a block hash must have.
pub const TARGET_HEXT: usize = 4;

/// The value of a block.
pub struct BlockModel {
    pub timestamp: u128,
    pub transactions: Seq<TransactionModel>,
    pub prev_block_hash: Seq<char>,
    pub hash: Seq<char>,
    pub height: i32,
    pub nonce: i32,
}

/// A block of the chain.
#[derive(Debug)]
pub struct Block {
    timestamp: u128,
    transactions: Vec<Transaction>,
    prev_block_hash: String,
    hash: String,
    height: i32,
    nonce: i32,
}

/// The values of a sequence of transactions.
pub open spec fn transactions_model(txs: Seq<Transaction>) -> Seq<TransactionModel> {
    txs.map_values(|t: Transaction| t@)
}

impl View for Block {
    type V = BlockModel;

    closed spec fn view(&self) -> BlockModel {
        BlockModel {
            timestamp: self.timestamp,
            transactions: transactions_model(self.transactions@),
            prev_block_hash: self.prev_block_hash@,
            hash: self.hash@,
            height: self.height,
            nonce: self.nonce,
        }
    }
}

/// A copy of a vector of transactions.
pub fn clone_transactions(txs: &Vec<Transaction>) -> (r: Vec<Transaction>)
    ensures
        transactions_model(r@) == transactions_model(txs@),
{
    let mut r: Vec<Transaction> = Vec::new();
    let n: usize = txs.len();
    let mut i: usize = 0;
    while i < n
        invariant
            n == txs@.len(),
            i <= n,
            r@.len() == i,
            forall|k: int| 0 <= k < i ==> #[trigger] r@[k]@ == txs@[k]@,
        decreases n - i,
    {
        r.push(txs[i].clone());
        i = i + 1;
    }
    assert(transactions_model(r@) =~= transactions_model(txs@));
    r
}

impl Clone for Block {
    fn clone(&self) -> (r: Self)
        ensures
            r@ == self@,
    {
        Block {
            timestamp: self.timestamp,
            transactions: clone_transactions(&self.transactions),
            prev_block_hash: self.prev_block_hash.clone(),
            hash: self.hash.clone(),
            height: self.height,
            nonce: self.nonce,
        }
    }
}

/// The Merkle leaf of a transaction: the ASCII bytes of its hex hash.
pub open spec fn tx_leaf(t: TransactionModel) -> Seq<u8> {
    hex_ascii(sha256_spec(transaction_bytes(t)))
}

/// The Merkle root over the hashes of a block's transactions.
pub open spec fn tx_root_spec(txs: Seq<TransactionModel>) -> Seq<u8> {
    merkle_root_spec(txs.map_values(|t: TransactionModel| tx_leaf(t)))
}

/// The bytes hashed to mine a block with the given fields and nonce.
pub open spec fn hash_content_spec(
    prev_block_hash: Seq<char>,
    txs: Seq<TransactionModel>,
    timestamp: u128,
    nonce: i32,
) -> Seq<u8> {
    bincode_hash_content(prev_block_hash, tx_root_spec(txs), timestamp, TARGET_HEXT as nat, nonce)
}

/// The bytes a block hashes at the nonce `nonce`.
pub open spec fn block_content(b: BlockModel, nonce: i32) -> Seq<u8> {
    hash_content_spec(b.prev_block_hash, b.transactions, b.timestamp, nonce)
}

/// The prefix that a block hash must have: `TARGET_HEXT` zeros.
pub open spec fn target_prefix() -> Seq<char> {
    Seq::new(TARGET_HEXT as nat, |i: int| '0')
}

/// Whether the hex SHA-256 of `content` starts with the target prefix.
pub open spec fn meets_target(content: Seq<u8>) -> bool {
    hex_chars(sha256_spec(content)).subrange(0, TARGET_HEXT as int) == target_prefix()
}

/// Whether the block's hash meets the target at its own nonce.
pub open spec fn block_valid(b: BlockModel) -> bool {
    meets_target(block_content(b, b.nonce))
}

/// A block of the given contents, stamped `timestamp`, before it is mined:
/// empty hash, nonce 0.
pub open spec fn unmined_block(
    txs: Seq<TransactionModel>,
    prev_block_hash: Seq<char>,
    height: i32,
    timestamp: u128,
) -> BlockModel {
    BlockModel { timestamp, transactions: txs, prev_block_hash, hash: Seq::empty(), height, nonce: 0 }
}

/// Whether some nonce from `start` to `i32::MAX` meets the target.
pub open spec fn target_reachable(b: BlockModel, start: i32) -> bool {
    exists|n: i32| start <= n && #[trigger] meets_target(block_content(b, n))
}

/// Whether `b` is the outcome of mining from the nonce `start`: its nonce is
/// the first from `start` on that meets the target, and its hash is the hex
/// SHA-256 of its content at that nonce, 64 characters long.
pub open spec fn mined_from(b: BlockModel, start: i32) -> bool {
    &&& start <= b.nonce
    &&& meets_target(block_content(b, b.nonce))
    &&& forall|n: i32| start <= n < b.nonce ==> !#[trigger] meets_target(block_content(b, n))
    &&& b.hash == hex_chars(sha256_spec(block_content(b, b.nonce)))
    &&& b.hash.len() == 64
}

/// A mined block validates, and its recorded 64-character hash begins with
/// `TARGET_HEXT` zeros: what mining produces is what `validate` accepts.
pub proof fn lemma_mined_block_validates(b: BlockModel, start: i32)
    requires
        mined_from(b, start),
    ensures
        block_valid(b),
        b.hash.subrange(0, TARGET_HEXT as int) == target_prefix(),
        b.hash.len() == 64,
{
}

/// The bytes a block hashes at a nonce depend only on its timestamp,
/// transactions and previous hash: two blocks that agree on these (whatever
/// their hash and height) hash the same bytes at each nonce.
pub proof fn lemma_content_depends_on_fields(b1: BlockModel, b2: BlockModel, nonce: i32)
    requires
        b1.timestamp == b2.timestamp,
        b1.transactions == b2.transactions,
        b1.prev_block_hash == b2.prev_block_hash,
    ensures
        block_content(b1, nonce) == block_content(b2, nonce),
{
}

/// Different nonces give different bytes to hash: the nonce's four
/// little-endian bytes end the content.
pub proof fn lemma_nonce_changes_content(b: BlockModel, n1: i32, n2: i32)
    requires
        n1 != n2,
    ensures
        block_content(b, n1) != block_content(b, n2),
{
    let root = tx_root_spec(b.transactions);
    let head = bincode_str(b.prev_block_hash) + bincode_bytes(root) + le_bytes(b.timestamp as nat, 16)
        + u64_le(TARGET_HEXT as nat);
    assert(block_content(b, n1) == head + i32_le(n1));
    assert(block_content(b, n2) == head + i32_le(n2));
    if block_content(b, n1) == block_content(b, n2) {
        assert((head + i32_le(n1)).skip(head.len() as int) =~= i32_le(n1));
        assert((head + i32_le(n2)).skip(head.len() as int) =~= i32_le(n2));
        lemma_i32_le_injective(n1, n2);
    }
}

/// Mining from a nonce finds the first nonce that meets the target: any two
/// outcomes of mining the same block from the same nonce agree on the nonce
/// and on the hash.
pub proof fn lemma_mining_deterministic(b1: BlockModel, b2: BlockModel, start: i32)
    requires
        mined_from(b1, start),
        mined_from(b2, start),
        b1.prev_block_hash == b2.prev_block_hash,
        b1.transactions == b2.transactions,
        b1.timestamp == b2.timestamp,
    ensures
        b1.nonce == b2.nonce,
        b1.hash == b2.hash,
{
    assert(forall|n: i32| #![trigger block_content(b1, n)] block_content(b1, n) == block_content(b2, n));
    if b1.nonce < b2.nonce {
        assert(!meets_target(block_content(b2, b1.nonce)));
    } else if b2.nonce < b1.nonce {
        assert(!meets_target(block_content(b1, b2.nonce)));
    }
}

impl Block {
    /// The height of the block in its chain.
    pub fn get_height(&self) -> (r: i32)
        ensures
            r == self@.height,
    {
        self.height
    }

    /// The transactions of the block.
    pub fn get_transaction(&self) -> (r: &Vec<Transaction>)
        ensures
            transactions_model(r@) == self@.transactions,
    {
        &self.transactions
    }

    /// The hash of the previous block.
    pub fn get_prev_hash(&self) -> (r: String)
        ensures
            r@ == self@.prev_block_hash,
    {
        self.prev_block_hash.clone()
    }

    /// The hash of the block.
    pub fn get_hash(&self) -> (r: String)
        ensures
            r@ == self@.hash,
    {
        self.hash.clone()
    }

    /// The genesis block: mined now over the one coinbase transaction, with
    /// no previous hash, at height 0.
    pub fn new_genesis_block(coinbase: Transaction) -> (r: Result<Block, BlockchainError>)
        ensures
            r is Ok ==> {
                &&& r->Ok_0@.transactions == seq![coinbase@]
                &&& r->Ok_0@.prev_block_hash == Seq::<char>::empty()
                &&& r->Ok_0@.height == 0
                &&& mined_from(r->Ok_0@, 0)
            },
            r is Err ==> r->Err_0 == BlockchainError::ClockBeforeEpoch
                || r->Err_0 == BlockchainError::NonceExhausted,
            r matches Err(BlockchainError::NonceExhausted) ==> exists|timestamp: u128|
                !target_reachable(#[trigger] unmined_block(seq![coinbase@], Seq::empty(), 0, timestamp), 0),
    {
        let ghost c = coinbase@;
        let data = vec![coinbase];
        assert(transactions_model(data@) =~= seq![c]);
        Block::new_block(data, String::new(), 0)
    }

    /// A new block over `data`, stamped with the current time and mined.
    /// Fails where the clock reads a time before the epoch, or where no
    /// nonce meets the target.
    pub fn new_block(data: Vec<Transaction>, prev_block_hash: String, height: i32) -> (r: Result<
        Block,
        BlockchainError,
    >)
        ensures
            r is Ok ==> {
                &&& r->Ok_0@.transactions == transactions_model(data@)
                &&& r->Ok_0@.prev_block_hash == prev_block_hash@
                &&& r->Ok_0@.height == height
                &&& mined_from(r->Ok_0@, 0)
            },
            r is Err ==> r->Err_0 == BlockchainError::ClockBeforeEpoch
                || r->Err_0 == BlockchainError::NonceExhausted,
            r matches Err(BlockchainError::NonceExhausted) ==> exists|timestamp: u128|
                !target_reachable(
                    #[trigger] unmined_block(transactions_model(data@), prev_block_hash@, height, timestamp),
                    0,
                ),
    {
        match now_millis() {
            Some(timestamp) => Block::new_block_at(data, prev_block_hash, height, timestamp),
            None => Err(BlockchainError::ClockBeforeEpoch),
        }
    }

    /// A new block over `data` stamped `timestamp`, mined from nonce 0: `Ok`
    /// exactly where some nonce meets the target.
    pub fn new_block_at(
        data: Vec<Transaction>,
        prev_block_hash: String,
        height: i32,
        timestamp: u128,
    ) -> (r: Result<Block, BlockchainError>)
        ensures
            ({
                let unmined = unmined_block(transactions_model(data@), prev_block_hash@, height, timestamp);
                &&& r is Ok <==> target_reachable(unmined, 0)
                &&& r is Ok ==> {
                    &&& r->Ok_0@.timestamp == timestamp
                    &&& r->Ok_0@.transactions == transactions_model(data@)
                    &&& r->Ok_0@.prev_block_hash == prev_block_hash@
                    &&& r->Ok_0@.height == height
                    &&& mined_from(r->Ok_0@, 0)
                }
                &&& r is Err ==> r->Err_0 == BlockchainError::NonceExhausted
            }),
    {
        let mut block = Block {
            timestamp: timestamp,
            transactions: data,
            prev_block_hash,
            hash: String::new(),
            height,
            nonce: 0,
        };
        block.run_proof_if_work()?;
        Ok(block)
    }

    /// Mines the block: raises the nonce from its current value until the
    /// block meets the target, then records the block's hash. Fails, with
    /// the nonce at `i32::MAX`, where no nonce from the current one on does.
    fn run_proof_if_work(&mut self) -> (r: Result<(), BlockchainError>)
        ensures
            final(self)@.timestamp == old(self)@.timestamp,
            final(self)@.transactions == old(self)@.transactions,
            final(self)@.prev_block_hash == old(self)@.prev_block_hash,
            final(self)@.height == old(self)@.height,
            r is Ok <==> target_reachable(old(self)@, old(self)@.nonce),
            r is Ok ==> mined_from(final(self)@, old(self)@.nonce),
            r is Err ==> r->Err_0 == BlockchainError::NonceExhausted,
    {
        let ghost start = self.nonce;
        let ghost b0 = self@;
        loop
            invariant
                self@.timestamp == b0.timestamp,
                self@.transactions == b0.transactions,
                self@.prev_block_hash == b0.prev_block_hash,
                self@.height == b0.height,
                self@.hash == b0.hash,
                start <= self.nonce,
                b0.nonce == start,
                b0 == old(self)@,
                forall|n: i32| start <= n < self.nonce ==> !#[trigger] meets_target(block_content(b0, n)),
            ensures
                meets_target(block_content(b0, self.nonce)),
            decreases i32::MAX - self.nonce,
        {
            assert(block_content(self@, self.nonce) == block_content(b0, self.nonce));
            if self.validate()? {
                break;
            }
            if self.nonce == i32::MAX {
                assert forall|n: i32| start <= n implies !#[trigger] meets_target(block_content(b0, n)) by {
                    assert(n < self.nonce || n == self.nonce);
                }
                return Err(BlockchainError::NonceExhausted);
            }
            self.nonce = self.nonce + 1;
        }
        let data = self.prepare_hash_data()?;
        self.hash = sha256_hex(data.as_slice());
        assert forall|n: i32| #![trigger block_content(self@, n)]
            block_content(self@, n) == block_content(b0, n) by {}
        Ok(())
    }

    /// The Merkle root over the hashes of the block's transactions.
    fn hash_transactions(&self) -> (r: Result<Vec<u8>, BlockchainError>)
        ensures
            r is Ok,
            r->Ok_0@ == tx_root_spec(self@.transactions),
    {
        let mut transactions: Vec<Vec<u8>> = Vec::new();
        let n: usize = self.transactions.len();
        let mut i: usize = 0;
        while i < n
            invariant
                n == self.transactions@.len(),
                i <= n,
                transactions@.len() == i,
                forall|k: int|
                    0 <= k < i ==> #[trigger] transactions@[k]@ == tx_leaf(
                        self.transactions@[k]@,
                    ),
            decreases n - i,
        {
            let tx_hash = self.transactions[i].hash()?;
            proof {
                lemma_hex_chars_utf8(sha256_spec(transaction_bytes(self.transactions@[i as int]@)));
            }
            transactions.push(copy_bytes(tx_hash.as_str().as_bytes()));
            i = i + 1;
        }
        assert(transactions.deep_view() =~= self@.transactions.map_values(
            |t: TransactionModel| tx_leaf(t),
        )) by {
            assert forall|k: int| 0 <= k < n implies #[trigger] transactions.deep_view()[k]
                == transactions@[k]@ by {}
        }
        Ok(merkle_root(&transactions))
    }

    /// The bytes hashed at the block's current nonce.
    fn prepare_hash_data(&self) -> (r: Result<Vec<u8>, BlockchainError>)
        ensures
            r is Ok,
            r->Ok_0@ == block_content(self@, self@.nonce),
    {
        let root = self.hash_transactions()?;
        match serialize_hash_content(
            &self.prev_block_hash,
            &root,
            self.timestamp,
            TARGET_HEXT,
            self.nonce,
        ) {
            Ok(bytes) => Ok(bytes),
            Err(_) => Ok(Vec::new()),
        }
    }

    /// Whether the hash at the block's current nonce meets the target.
    pub fn validate(&self) -> (r: Result<bool, BlockchainError>)
        ensures
            r is Ok,
            r->Ok_0 == block_valid(self@),
    {
        let data = self.prepare_hash_data()?;
        let hash = sha256_hex(data.as_slice());
        let ghost digest = sha256_spec(data@);
        proof {
            lemma_hex_chars_utf8(digest);
        }
        let bytes = hash.as_str().as_bytes();
        let mut ok = true;
        let mut i: usize = 0;
        while i < TARGET_HEXT
            invariant
                bytes@ == hex_ascii(digest),
                bytes@.len() == 64,
                hash@ == hex_chars(digest),
                i <= TARGET_HEXT,
                ok == (forall|k: int| 0 <= k < i ==> hex_chars(digest)[k] == '0'),
            decreases TARGET_HEXT - i,
        {
            assert(hex_chars(digest)[i as int] == (bytes@[i as int] as char));
            if bytes[i] != 48u8 {
                ok = false;
            }
            i = i + 1;
        }
        proof {
            let shown = hex_chars(digest).subrange(0, TARGET_HEXT as int);
            if ok {
                assert(shown =~= target_prefix());
            } else {
                let k: int = choose|k: int| 0 <= k < TARGET_HEXT && hex_chars(digest)[k] != '0';
                assert(shown[k] != target_prefix()[k]);
            }
        }
        Ok(ok)
    }
}

} // verus!
