//! The blockchain coordinator: the single writer of chain state, and the
//! read queries it serves.
//!
//! The chain is a development-mode simulator: every accepted transaction is
//! committed alone into a fresh block, block hashes derive from the block
//! number, and the whole history lives in memory. Transaction execution is
//! the engine's business: the coordinator validates a submission, and commits
//! the outcome the engine reports.
use vstd::prelude::*;

use crate::bytes::be_val;
use crate::bytes::spec_dec;
use crate::bytes::u64_to_dec;
use crate::crypto::keccak256;
use crate::crypto::keccak_of;
use crate::bytes::copy_whole;
use crate::keymanager::MockClient;
use crate::rlp::append_bytes;
use crate::rlp::append_rlp_list_header;
use crate::rlp::append_rlp_str;
use crate::rlp::copy_range;
use crate::rlp::rlp_list;
use crate::rlp::rlp_str;
use crate::storage::MemoryMKVS;
use crate::tx::decode_transaction;
use crate::tx::lemma_tx_rlp_injective;
use crate::tx::recover_sender;
use crate::tx::spec_sender;
use crate::tx::spec_tx_rlp;
use crate::tx::tx_wf;
use crate::tx::signed_alike;
use crate::tx::signed_wf;
use crate::tx::SignedTransaction;
use crate::tx::Transaction;
use crate::tx::TxAction;
use crate::BLOCK_GAS_LIMIT;
use crate::MIN_GAS_PRICE_WEI;

verus! {

/// One log line a contract emitted.
pub struct LogEntry {
    pub address: Vec<u8>,
    pub topics: Vec<Vec<u8>>,
    pub data: Vec<u8>,
}

impl LogEntry {
    /// Copies the log line.
    pub fn duplicate(&self) -> (r: Self)
        ensures
            r.address@ == self.address@,
            r.data@ == self.data@,
            r.topics@.len() == self.topics@.len(),
            forall|k: int|
                0 <= k < self.topics@.len() ==> (#[trigger] r.topics@[k])@ == self.topics@[k]@,
    {
        let mut topics: Vec<Vec<u8>> = Vec::new();
        let n = self.topics.len();
        let mut i: usize = 0;
        while i < n
            invariant
                i <= n,
                n == self.topics@.len(),
                topics@.len() == i,
                forall|k: int| 0 <= k < i ==> (#[trigger] topics@[k])@ == self.topics@[k]@,
            decreases n - i,
        {
            topics.push(copy_whole(&self.topics[i]));
            i += 1;
        }
        LogEntry { address: copy_whole(&self.address), topics, data: copy_whole(&self.data) }
    }
}

/// A log line placed on the chain: where it was emitted.
pub struct LocalizedLogEntry {
    pub entry: LogEntry,
    pub block_hash: Vec<u8>,
    pub block_number: u64,
    pub transaction_hash: Vec<u8>,
    pub transaction_index: u32,
    pub transaction_log_index: usize,
    pub log_index: usize,
}

/// One pending write to the persisted store: a value to set, or a removal.
pub struct StoreUpdate {
    pub key: Vec<u8>,
    pub value: Option<Vec<u8>>,
}

/// What the execution engine reports for an applied transaction, together
/// with the state mutation to persist on commit.
pub struct ExecutionOutcome {
    pub gas_used: u64,
    pub refunded: u64,
    pub logs: Vec<LogEntry>,
    pub log_bloom: Vec<u8>,
    pub status_code: u8,
    pub output: Vec<u8>,
    pub state_updates: Vec<StoreUpdate>,
}

/// What a submission returns to the caller.
pub struct ExecutionResult {
    pub cumulative_gas_used: u64,
    pub gas_used: u64,
    pub log_bloom: Vec<u8>,
    pub logs: Vec<LogEntry>,
    pub status_code: u8,
    pub output: Vec<u8>,
}

/// A transaction placed on the chain.
pub struct LocalizedTransaction {
    pub signed: SignedTransaction,
    pub block_number: u64,
    pub block_hash: Vec<u8>,
    pub transaction_index: u32,
}

/// The outcome record of one executed transaction.
pub struct LocalizedReceipt {
    pub transaction_hash: Vec<u8>,
    pub transaction_index: u32,
    pub block_hash: Vec<u8>,
    pub block_number: u64,
    pub cumulative_gas_used: u64,
    pub gas_used: u64,
    pub contract_address: Option<Vec<u8>>,
    pub logs: Vec<LocalizedLogEntry>,
    pub log_bloom: Vec<u8>,
    pub status_code: u8,
}

/// How a caller names a block.
pub enum BlockId {
    Hash(Vec<u8>),
    Number(u64),
    Latest,
    Earliest,
}

/// Why a submission was rejected, each a distinct caller-visible reason.
#[derive(Debug)]
pub enum SubmitError {
    /// The raw bytes are not the canonical encoding of a transaction.
    DecodeError,
    /// The transaction asks for more gas than a block holds.
    GasTooHigh,
    /// Signature recovery failed.
    BadSignature,
    /// The offered gas price is below the chain's floor.
    GasPriceTooLow,
    /// The engine failed to apply the transaction; carries its message.
    ExecutionError(Vec<u8>),
}

/// The hash of a block: this test-only chain derives it from the decimal
/// rendering of the block number alone, unique but not tamper-evident.
pub open spec fn block_hash_of(n: nat) -> Seq<u8> {
    keccak_of(spec_dec(n))
}

/// Computes the hash a block with this number carries.
pub fn compute_block_hash(number: u64) -> (r: Vec<u8>)
    ensures
        r@ == block_hash_of(number as nat),
        r@.len() == 32,
{
    let digits = u64_to_dec(number);
    keccak256(&digits)
}

/// The address a created contract receives: derived from the sender and the
/// sender's nonce.
pub open spec fn create_address_of(sender: Seq<u8>, nonce: Seq<u8>) -> Seq<u8> {
    keccak_of(rlp_list(rlp_str(sender) + rlp_str(nonce))).skip(12)
}

/// Computes the created-contract address for a sender and nonce.
pub fn compute_create_address(sender: &Vec<u8>, nonce: &Vec<u8>) -> (r: Vec<u8>)
    ensures
        r@ == create_address_of(sender@, nonce@),
        r@.len() == 20,
{
    let mut payload: Vec<u8> = Vec::new();
    append_rlp_str(&mut payload, sender);
    append_rlp_str(&mut payload, nonce);
    let mut enc: Vec<u8> = Vec::new();
    append_rlp_list_header(&mut enc, payload.len());
    append_bytes(&mut enc, &payload);
    assert(enc@ =~= rlp_list(rlp_str(sender@) + rlp_str(nonce@)));
    let digest = keccak256(&enc);
    let addr = copy_range(&digest, 12, 32);
    assert(addr@ =~= digest@.skip(12));
    addr
}

/// A simulated Ethereum block.
pub struct EthereumBlock {
    pub number: u64,
    pub timestamp: u64,
    pub hash: Vec<u8>,
    pub gas_used: u64,
    pub gas_limit: u64,
    pub log_bloom: Vec<u8>,
    pub transactions: Vec<LocalizedTransaction>,
}

impl EthereumBlock {
    /// Creates a new block with no transactions; its hash derives from the
    /// number.
    pub fn new(number: u64, timestamp: u64, gas_used: u64, gas_limit: u64, log_bloom: Vec<u8>) -> (r:
        Self)
        ensures
            r.number == number,
            r.timestamp == timestamp,
            r.gas_used == gas_used,
            r.gas_limit == gas_limit,
            r.log_bloom == log_bloom,
            r.hash@ == block_hash_of(number as nat),
            r.hash@.len() == 32,
            r.transactions@.len() == 0,
    {
        let hash = compute_block_hash(number);
        EthereumBlock { number, timestamp, hash, gas_used, gas_limit, log_bloom, transactions: Vec::new() }
    }

    /// Ethereum block number.
    pub fn number(&self) -> (r: u64)
        ensures
            r == self.number,
    {
        self.number
    }

    /// Ethereum block number, as a machine word.
    pub fn number_u64(&self) -> (r: u64)
        ensures
            r == self.number,
    {
        self.number
    }

    /// Block hash.
    pub fn hash(&self) -> (r: &Vec<u8>)
        ensures
            r@ == self.hash@,
    {
        &self.hash
    }

    /// The transactions the block contains.
    pub fn transactions(&self) -> (r: &Vec<LocalizedTransaction>)
        ensures
            r == &self.transactions,
    {
        &self.transactions
    }

    /// Appends a transaction to the block.
    pub fn add_transaction(&mut self, txn: LocalizedTransaction)
        ensures
            final(self).transactions@ == old(self).transactions@.push(txn),
            final(self).number == old(self).number,
            final(self).timestamp == old(self).timestamp,
            final(self).hash == old(self).hash,
            final(self).gas_used == old(self).gas_used,
            final(self).gas_limit == old(self).gas_limit,
            final(self).log_bloom == old(self).log_bloom,
    {
        self.transactions.push(txn);
    }
}

/// Simulated blockchain state: the one mutable record of the chain.
pub struct ChainState {
    /// The persisted key/value store the engine executes against.
    pub mkvs: MemoryMKVS,
    /// Number of the newest block.
    pub block_number: u64,
    /// All blocks, the block of number `i` at index `i`.
    pub blocks: Vec<EthereumBlock>,
    /// Transaction hash to the number of the block holding it.
    pub transactions: Vec<(Vec<u8>, u64)>,
    /// Transaction hash to the receipt of its execution.
    pub receipts: Vec<(Vec<u8>, LocalizedReceipt)>,
}

/// The chain-state invariant: genesis exists, block numbers are the gapless
/// indices of the block list, every block's hash derives from its number,
/// genesis is empty and every later block carries exactly one transaction,
/// and the transaction and receipt indices mirror the blocks one for one.
pub open spec fn chain_wf(c: ChainState) -> bool {
    &&& c.mkvs.wf()
    &&& 1 <= c.blocks@.len()
    &&& c.block_number as int == c.blocks@.len() - 1
    &&& forall|i: int| 0 <= i < c.blocks@.len() ==> (#[trigger] c.blocks@[i]).number as int == i
    &&& forall|i: int|
        0 <= i < c.blocks@.len() ==> (#[trigger] c.blocks@[i]).hash@ == block_hash_of(i as nat)
    &&& forall|i: int|
        0 <= i < c.blocks@.len() ==> (#[trigger] c.blocks@[i]).gas_limit == BLOCK_GAS_LIMIT
    &&& c.blocks@[0].transactions@.len() == 0
    &&& forall|i: int|
        1 <= i < c.blocks@.len() ==> (#[trigger] c.blocks@[i]).transactions@.len() == 1
    &&& forall|i: int|
        1 <= i < c.blocks@.len() ==> (#[trigger] c.blocks@[i]).transactions@[0].block_number as int
            == i && c.blocks@[i].transactions@[0].transaction_index == 0
            && c.blocks@[i].transactions@[0].block_hash@ == block_hash_of(i as nat)
            && signed_wf(c.blocks@[i].transactions@[0].signed)
    &&& c.transactions@.len() == c.blocks@.len() - 1
    &&& forall|j: int|
        0 <= j < c.transactions@.len() ==> (#[trigger] c.transactions@[j]).1 as int == j + 1
            && c.transactions@[j].0@ == c.blocks@[j + 1].transactions@[0].signed.hash@
    &&& c.receipts@.len() == c.blocks@.len() - 1
    &&& forall|j: int|
        0 <= j < c.receipts@.len() ==> (#[trigger] c.receipts@[j]).1.block_number as int == j + 1
            && c.receipts@[j].0@ == c.receipts@[j].1.transaction_hash@ && c.receipts@[j].0@
            == c.blocks@[j + 1].transactions@[0].signed.hash@
    &&& forall|j: int, l: int|
        0 <= j < c.receipts@.len() && 0 <= l < c.receipts@[j].1.logs@.len() ==> (
        #[trigger] c.receipts@[j].1.logs@[l]).block_number as int == j + 1
            && c.receipts@[j].1.logs@[l].log_index == l && c.receipts@[j].1.logs@[
        l].transaction_index == 0
}

/// Simulated blockchain: the coordinator owning the chain state.
pub struct Blockchain {
    /// Configured gas price, in wei.
    pub gas_price: u128,
    /// Key manager serving the confidential execution path.
    pub km_client: MockClient,
    /// The chain state this coordinator owns exclusively.
    pub chain_state: ChainState,
}

impl Blockchain {
    /// Whether the owned chain state is well formed; `new` establishes it
    /// and every mutation preserves it.
    pub open spec fn wf(&self) -> bool {
        chain_wf(self.chain_state)
    }

    /// Creates a new simulated blockchain holding only the genesis block,
    /// over an empty persisted store.
    pub fn new(gas_price: u128, km_client: MockClient) -> (r: Self)
        ensures
            r.wf(),
            r.gas_price == gas_price,
            r.chain_state.block_number == 0,
            r.chain_state.blocks@.len() == 1,
            r.chain_state.blocks@[0].timestamp == 0,
            r.chain_state.blocks@[0].gas_used == 0,
            r.chain_state.transactions@.len() == 0,
            r.chain_state.receipts@.len() == 0,
            r.chain_state.mkvs@ == Map::<Seq<u8>, Seq<u8>>::empty(),
    {
        let mkvs = MemoryMKVS::new();
        let genesis_block = EthereumBlock::new(0, 0, 0, BLOCK_GAS_LIMIT, Vec::new());
        let mut blocks: Vec<EthereumBlock> = Vec::new();
        blocks.push(genesis_block);
        let chain_state = ChainState {
            mkvs,
            block_number: 0,
            blocks,
            transactions: Vec::new(),
            receipts: Vec::new(),
        };
        Blockchain { gas_price, km_client, chain_state }
    }

    /// Gas price.
    pub fn gas_price(&self) -> (r: u128)
        ensures
            r == self.gas_price,
    {
        self.gas_price
    }

    /// The current best block number.
    pub fn best_block_number(&self) -> (r: u64)
        ensures
            r == self.chain_state.block_number,
    {
        self.chain_state.block_number
    }

    /// A snapshot of the persisted store at the given block.
    ///
    /// Only the current state is kept, so every block identifier answers
    /// with the newest store contents; the copy gives simulations a stable
    /// snapshot that later commits cannot disturb.
    pub fn state(&self, _id: &BlockId) -> (r: MemoryMKVS)
        requires
            self.wf(),
        ensures
            r@ == self.chain_state.mkvs@,
            r.wf(),
    {
        self.chain_state.mkvs.snapshot()
    }

    /// The latest block.
    pub fn get_latest_block(&self) -> (r: &EthereumBlock)
        requires
            self.wf(),
        ensures
            *r == self.chain_state.blocks@.last(),
    {
        &self.chain_state.blocks[self.chain_state.blocks.len() - 1]
    }

    /// The block of the given number, or nothing past the chain head.
    pub fn get_block_by_number(&self, number: u64) -> (r: Option<&EthereumBlock>)
        requires
            self.wf(),
        ensures
            match r {
                Some(b) => number < self.chain_state.blocks@.len() && *b
                    == self.chain_state.blocks@[number as int],
                None => number >= self.chain_state.blocks@.len(),
            },
    {
        if number < self.chain_state.blocks.len() as u64 {
            Some(&self.chain_state.blocks[number as usize])
        } else {
            None
        }
    }

    /// The block carrying the given hash, or nothing when no block does.
    pub fn get_block_by_hash(&self, hash: &Vec<u8>) -> (r: Option<&EthereumBlock>)
        requires
            self.wf(),
        ensures
            match r {
                Some(b) => b.hash@ == hash@ && exists|i: int|
                    0 <= i < self.chain_state.blocks@.len() && *b == #[trigger] self.chain_state
                        .blocks@[i],
                None => forall|i: int|
                    0 <= i < self.chain_state.blocks@.len() ==> (#[trigger] self.chain_state
                        .blocks@[i]).hash@ != hash@,
            },
    {
        let n = self.chain_state.blocks.len();
        let mut i: usize = 0;
        while i < n
            invariant
                i <= n,
                n == self.chain_state.blocks@.len(),
                forall|j: int|
                    0 <= j < i ==> (#[trigger] self.chain_state.blocks@[j]).hash@ != hash@,
            decreases n - i,
        {
            if crate::bytes::bytes_eq(&self.chain_state.blocks[i].hash, hash) {
                return Some(&self.chain_state.blocks[i]);
            }
            i += 1;
        }
        None
    }

    /// The block a caller names, or nothing when no block answers to it.
    pub fn get_block(&self, id: &BlockId) -> (r: Option<&EthereumBlock>)
        requires
            self.wf(),
        ensures
            match id {
                BlockId::Latest => r == Some(&self.chain_state.blocks@.last()),
                BlockId::Earliest => r == Some(&self.chain_state.blocks@[0]),
                BlockId::Number(n) => match r {
                    Some(b) => *n < self.chain_state.blocks@.len() && *b == self.chain_state
                        .blocks@[*n as int],
                    None => *n >= self.chain_state.blocks@.len(),
                },
                BlockId::Hash(h) => match r {
                    Some(b) => b.hash@ == h@,
                    None => forall|i: int|
                        0 <= i < self.chain_state.blocks@.len() ==> (#[trigger] self.chain_state
                            .blocks@[i]).hash@ != h@,
                },
            },
    {
        match id {
            BlockId::Hash(h) => self.get_block_by_hash(h),
            BlockId::Number(n) => self.get_block_by_number(*n),
            BlockId::Latest => {
                let b = self.get_latest_block();
                proof {
                    assert(self.chain_state.blocks@.last() == self.chain_state.blocks@[
                    self.chain_state.blocks@.len() - 1]);
                }
                Some(b)
            },
            BlockId::Earliest => self.get_block_by_number(0),
        }
    }

    /// The transaction carrying the given hash, or nothing when no committed
    /// transaction does.
    pub fn get_txn_by_hash(&self, hash: &Vec<u8>) -> (r: Option<&LocalizedTransaction>)
        requires
            self.wf(),
        ensures
            match r {
                Some(t) => t.signed.hash@ == hash@ && 1 <= t.block_number < self.chain_state
                    .blocks@.len() && *t == self.chain_state.blocks@[t.block_number as int]
                    .transactions@[0],
                None => forall|j: int|
                    0 <= j < self.chain_state.transactions@.len() ==> (#[trigger] self.chain_state
                        .transactions@[j]).0@ != hash@,
            },
    {
        let n = self.chain_state.transactions.len();
        let mut i: usize = 0;
        while i < n
            invariant
                i <= n,
                self.wf(),
                n == self.chain_state.transactions@.len(),
                forall|j: int|
                    0 <= j < i ==> (#[trigger] self.chain_state.transactions@[j]).0@ != hash@,
            decreases n - i,
        {
            if crate::bytes::bytes_eq(&self.chain_state.transactions[i].0, hash) {
                let bn = self.chain_state.transactions[i].1;
                return Some(&self.chain_state.blocks[bn as usize].transactions[0]);
            }
            i += 1;
        }
        None
    }

    /// The receipt of the transaction carrying the given hash.
    pub fn get_txn_receipt_by_hash(&self, hash: &Vec<u8>) -> (r: Option<&LocalizedReceipt>)
        requires
            self.wf(),
        ensures
            match r {
                Some(rc) => rc.transaction_hash@ == hash@ && exists|j: int|
                    0 <= j < self.chain_state.receipts@.len() && *rc == (
                    #[trigger] self.chain_state.receipts@[j]).1,
                None => forall|j: int|
                    0 <= j < self.chain_state.receipts@.len() ==> (#[trigger] self.chain_state
                        .receipts@[j]).0@ != hash@,
            },
    {
        let n = self.chain_state.receipts.len();
        let mut i: usize = 0;
        while i < n
            invariant
                i <= n,
                self.wf(),
                n == self.chain_state.receipts@.len(),
                forall|j: int|
                    0 <= j < i ==> (#[trigger] self.chain_state.receipts@[j]).0@ != hash@,
            decreases n - i,
        {
            if crate::bytes::bytes_eq(&self.chain_state.receipts[i].0, hash) {
                return Some(&self.chain_state.receipts[i].1);
            }
            i += 1;
        }
        None
    }

    /// The transaction at the given index of the block of the given number.
    pub fn get_txn_by_number_and_index(&self, number: u64, index: u32) -> (r: Option<
        &LocalizedTransaction,
    >)
        requires
            self.wf(),
        ensures
            match r {
                Some(t) => number < self.chain_state.blocks@.len() && (index as int)
                    < self.chain_state.blocks@[number as int].transactions@.len() && *t
                    == self.chain_state.blocks@[number as int].transactions@[(index as int)],
                None => number >= self.chain_state.blocks@.len() || (index as int)
                    >= self.chain_state.blocks@[number as int].transactions@.len(),
            },
    {
        match self.get_block_by_number(number) {
            Some(b) => {
                if (index as usize) < b.transactions.len() {
                    Some(&b.transactions[index as usize])
                } else {
                    None
                }
            },
            None => None,
        }
    }

    /// The transaction at the given index of the block carrying the given
    /// hash.
    pub fn get_txn_by_block_hash_and_index(&self, block_hash: &Vec<u8>, index: u32) -> (r: Option<
        &LocalizedTransaction,
    >)
        requires
            self.wf(),
        ensures
            match r {
                Some(t) => exists|i: int|
                    0 <= i < self.chain_state.blocks@.len() && (#[trigger] self.chain_state
                        .blocks@[i]).hash@ == block_hash@ && (index as int) < self.chain_state
                        .blocks@[i].transactions@.len() && *t == self.chain_state
                        .blocks@[i].transactions@[(index as int)],
                None => (forall|i: int|
                    0 <= i < self.chain_state.blocks@.len() ==> (#[trigger] self.chain_state
                        .blocks@[i]).hash@ != block_hash@) || (exists|i: int|
                    0 <= i < self.chain_state.blocks@.len() && (#[trigger] self.chain_state
                        .blocks@[i]).hash@ == block_hash@ && (index as int)
                        >= self.chain_state.blocks@[i].transactions@.len()),
            },
    {
        match self.get_block_by_hash(block_hash) {
            Some(b) => {
                let ghost blocks = self.chain_state.blocks@;
                let ghost wit: int = choose|i: int|
                    0 <= i < blocks.len() && *b == #[trigger] blocks[i];
                if (index as usize) < b.transactions.len() {
                    Some(&b.transactions[index as usize])
                } else {
                    proof {
                        assert(0 <= wit < blocks.len() && blocks[wit].hash@ == block_hash@ && (
                        index as int) >= blocks[wit].transactions@.len());
                    }
                    None
                }
            },
            None => None,
        }
    }

    /// The transaction at the given index of the block a caller names;
    /// `Latest` reads at the current head.
    pub fn get_txn(&self, id: &BlockId, index: u32) -> (r: Option<&LocalizedTransaction>)
        requires
            self.wf(),
        ensures
            match id {
                BlockId::Number(n) => match r {
                    Some(t) => *n < self.chain_state.blocks@.len() && (index as int)
                        < self.chain_state.blocks@[*n as int].transactions@.len() && *t
                        == self.chain_state.blocks@[*n as int].transactions@[index as int],
                    None => *n >= self.chain_state.blocks@.len() || (index as int)
                        >= self.chain_state.blocks@[*n as int].transactions@.len(),
                },
                BlockId::Latest => match r {
                    Some(t) => (index as int) < self.chain_state.blocks@.last().transactions@.len()
                        && *t == self.chain_state.blocks@.last().transactions@[index as int],
                    None => (index as int)
                        >= self.chain_state.blocks@.last().transactions@.len(),
                },
                BlockId::Earliest => match r {
                    Some(t) => (index as int)
                        < self.chain_state.blocks@[0].transactions@.len() && *t
                        == self.chain_state.blocks@[0].transactions@[index as int],
                    None => (index as int) >= self.chain_state.blocks@[0].transactions@.len(),
                },
                BlockId::Hash(h) => match r {
                    Some(t) => exists|i: int|
                        0 <= i < self.chain_state.blocks@.len() && (#[trigger] self.chain_state
                            .blocks@[i]).hash@ == h@ && (index as int) < self.chain_state
                            .blocks@[i].transactions@.len() && *t == self.chain_state
                            .blocks@[i].transactions@[index as int],
                    None => (forall|i: int|
                        0 <= i < self.chain_state.blocks@.len() ==> (#[trigger] self.chain_state
                            .blocks@[i]).hash@ != h@) || (exists|i: int|
                        0 <= i < self.chain_state.blocks@.len() && (#[trigger] self.chain_state
                            .blocks@[i]).hash@ == h@ && (index as int)
                            >= self.chain_state.blocks@[i].transactions@.len()),
                },
            },
    {
        match id {
            BlockId::Hash(h) => self.get_txn_by_block_hash_and_index(h, index),
            BlockId::Number(n) => self.get_txn_by_number_and_index(*n, index),
            BlockId::Latest => self.get_txn_by_number_and_index(self.best_block_number(), index),
            BlockId::Earliest => self.get_txn_by_number_and_index(0, index),
        }
    }
}

/// The persisted store after a prefix of the engine's pending writes.
pub open spec fn apply_updates(
    m: Map<Seq<u8>, Seq<u8>>,
    ups: Seq<StoreUpdate>,
    i: int,
) -> Map<Seq<u8>, Seq<u8>>
    decreases i,
{
    if i <= 0 {
        m
    } else {
        let prev = apply_updates(m, ups, i - 1);
        match ups[i - 1].value {
            Some(v) => prev.insert(ups[i - 1].key@, v@),
            None => prev.remove(ups[i - 1].key@),
        }
    }
}

/// The environment a transaction executes in.
pub struct EnvInfo {
    /// Number of the block being formed or simulated.
    pub number: u64,
    pub timestamp: u64,
    /// Gas ceiling; a simulation runs unconstrained.
    pub gas_limit: u128,
}

/// What the engine reports for a simulated call.
pub struct ExecutionTrace {
    pub gas_used: u64,
    pub refunded: u64,
    pub output: Vec<u8>,
    /// An engine-reported revert or exception, with its message.
    pub exception: Option<Vec<u8>>,
}

/// Why a simulated call failed.
#[derive(Debug)]
pub enum CallError {
    /// The contract reverted or threw; carries the call's output bytes.
    Reverted(Vec<u8>),
    /// The call could not be executed at all; carries the engine's message.
    Internal(Vec<u8>),
}

impl Blockchain {
    /// Validates a raw submission: decodes it, checks the gas against the
    /// block gas limit, recovers the signer, and checks the gas price
    /// against the chain's floor. Each rejection is a distinct reason, and
    /// a submission passing every check is accepted.
    pub fn send_raw_transaction(&self, raw: &Vec<u8>) -> (r: Result<SignedTransaction, SubmitError>)
        ensures
            match r {
                Ok(st) => {
                    &&& signed_wf(st)
                    &&& raw@ == spec_tx_rlp(st.transaction)
                    &&& be_val(st.transaction.gas@) <= BLOCK_GAS_LIMIT
                    &&& be_val(st.transaction.gas_price@) >= MIN_GAS_PRICE_WEI
                },
                Err(e) => match e {
                    SubmitError::DecodeError => forall|t: Transaction|
                        tx_wf(t) ==> raw@ != #[trigger] spec_tx_rlp(t),
                    SubmitError::GasTooHigh => (exists|t: Transaction|
                        tx_wf(t) && raw@ == #[trigger] spec_tx_rlp(t)) && forall|t: Transaction|
                        tx_wf(t) && raw@ == #[trigger] spec_tx_rlp(t) ==> be_val(t.gas@)
                            > BLOCK_GAS_LIMIT,
                    SubmitError::BadSignature => (exists|t: Transaction|
                        tx_wf(t) && raw@ == #[trigger] spec_tx_rlp(t)) && forall|t: Transaction|
                        tx_wf(t) && raw@ == #[trigger] spec_tx_rlp(t) ==> be_val(t.gas@)
                            <= BLOCK_GAS_LIMIT && spec_sender(t) is None,
                    SubmitError::GasPriceTooLow => (exists|t: Transaction|
                        tx_wf(t) && raw@ == #[trigger] spec_tx_rlp(t)) && forall|t: Transaction|
                        tx_wf(t) && raw@ == #[trigger] spec_tx_rlp(t) ==> be_val(t.gas@)
                            <= BLOCK_GAS_LIMIT && spec_sender(t) is Some && be_val(t.gas_price@)
                            < MIN_GAS_PRICE_WEI,
                    SubmitError::ExecutionError(_) => false,
                },
            },
    {
        // Decode.
        let t = match decode_transaction(raw) {
            Some(t) => t,
            None => {
                return Err(SubmitError::DecodeError);
            },
        };
        // Check that gas <= block gas limit.
        if crate::bytes::be_gt_u64(&t.gas, BLOCK_GAS_LIMIT) {
            proof {
                assert(exists|t2: Transaction| tx_wf(t2) && raw@ == #[trigger] spec_tx_rlp(t2))
                    by {
                    assert(tx_wf(t) && raw@ == spec_tx_rlp(t));
                }
                assert forall|t2: Transaction|
                    tx_wf(t2) && raw@ == #[trigger] spec_tx_rlp(t2) implies be_val(t2.gas@)
                    > BLOCK_GAS_LIMIT by {
                    lemma_tx_rlp_injective(t, t2);
                }
            }
            return Err(SubmitError::GasTooHigh);
        }
        // Check the signature.
        let sender = match recover_sender(&t) {
            Some(addr) => addr,
            None => {
                proof {
                    assert(exists|t2: Transaction|
                        tx_wf(t2) && raw@ == #[trigger] spec_tx_rlp(t2)) by {
                        assert(tx_wf(t) && raw@ == spec_tx_rlp(t));
                    }
                    assert forall|t2: Transaction|
                        tx_wf(t2) && raw@ == #[trigger] spec_tx_rlp(t2) implies be_val(t2.gas@)
                        <= BLOCK_GAS_LIMIT && spec_sender(t2) is None by {
                        lemma_tx_rlp_injective(t, t2);
                    }
                }
                return Err(SubmitError::BadSignature);
            },
        };
        // Check the gas price.
        if crate::bytes::be_lt_u64(&t.gas_price, MIN_GAS_PRICE_WEI) {
            proof {
                assert(exists|t2: Transaction| tx_wf(t2) && raw@ == #[trigger] spec_tx_rlp(t2))
                    by {
                    assert(tx_wf(t) && raw@ == spec_tx_rlp(t));
                }
                assert forall|t2: Transaction|
                    tx_wf(t2) && raw@ == #[trigger] spec_tx_rlp(t2) implies be_val(t2.gas@)
                    <= BLOCK_GAS_LIMIT && spec_sender(t2) is Some && be_val(t2.gas_price@)
                    < MIN_GAS_PRICE_WEI by {
                    lemma_tx_rlp_injective(t, t2);
                }
            }
            return Err(SubmitError::GasPriceTooLow);
        }
        let hash = keccak256(raw);
        Ok(SignedTransaction { transaction: t, sender, hash })
    }

    /// Commits an executed transaction: persists the engine's state
    /// mutation, appends a block numbered one past the previous head
    /// containing exactly this transaction, and indexes the transaction and
    /// its receipt under the transaction's hash.
    pub fn mine_block(&mut self, txn: SignedTransaction, outcome: &ExecutionOutcome, timestamp: u64) -> (r: (
        Vec<u8>,
        ExecutionResult,
    ))
        requires
            old(self).wf(),
            signed_wf(txn),
        ensures
            final(self).wf(),
            final(self).gas_price == old(self).gas_price,
            final(self).chain_state.block_number == old(self).chain_state.block_number + 1,
            final(self).chain_state.blocks@.len() == old(self).chain_state.blocks@.len() + 1,
            final(self).chain_state.blocks@.drop_last() == old(self).chain_state.blocks@,
            ({
                let b = final(self).chain_state.blocks@.last();
                &&& b.number == old(self).chain_state.block_number + 1
                &&& b.timestamp == timestamp
                &&& b.gas_used == outcome.gas_used
                &&& b.gas_limit == BLOCK_GAS_LIMIT
                &&& b.log_bloom@ == outcome.log_bloom@
                &&& b.transactions@.len() == 1
                &&& b.transactions@[0].signed == txn
                &&& b.transactions@[0].transaction_index == 0
            }),
            final(self).chain_state.transactions@.len() == old(self).chain_state.transactions@.len() + 1,
            final(self).chain_state.transactions@.drop_last() == old(self).chain_state.transactions@,
            final(self).chain_state.transactions@.last().0@ == txn.hash@,
            final(self).chain_state.receipts@.len() == old(self).chain_state.receipts@.len() + 1,
            final(self).chain_state.receipts@.drop_last() == old(self).chain_state.receipts@,
            ({
                let rc = final(self).chain_state.receipts@.last().1;
                &&& rc.transaction_hash@ == txn.hash@
                &&& rc.transaction_index == 0
                &&& rc.block_number == old(self).chain_state.block_number + 1
                &&& rc.cumulative_gas_used == outcome.gas_used
                &&& rc.gas_used == outcome.gas_used
                &&& rc.status_code == outcome.status_code
                &&& rc.log_bloom@ == outcome.log_bloom@
                &&& (txn.transaction.action is Create ==> (rc.contract_address matches Some(a)
                    && a@ == create_address_of(txn.sender@, txn.transaction.nonce@)))
                &&& (!(txn.transaction.action is Create) ==> rc.contract_address is None)
                &&& rc.logs@.len() == outcome.logs@.len()
                &&& forall|k: int|
                    0 <= k < rc.logs@.len() ==> {
                        let lc = #[trigger] rc.logs@[k];
                        &&& lc.entry.address@ == outcome.logs@[k].address@
                        &&& lc.entry.data@ == outcome.logs@[k].data@
                        &&& lc.entry.topics@.len() == outcome.logs@[k].topics@.len()
                        &&& lc.block_number == old(self).chain_state.block_number + 1
                        &&& lc.transaction_hash@ == txn.hash@
                        &&& lc.transaction_index == 0
                        &&& lc.transaction_log_index == k
                        &&& lc.log_index == k
                    }
            }),
            final(self).chain_state.mkvs@ == apply_updates(
                old(self).chain_state.mkvs@,
                outcome.state_updates@,
                outcome.state_updates@.len() as int,
            ),
            r.0@ == txn.hash@,
            r.1.cumulative_gas_used == outcome.gas_used,
            r.1.gas_used == outcome.gas_used,
            r.1.status_code == outcome.status_code,
            r.1.output@ == outcome.output@,
            r.1.log_bloom@ == outcome.log_bloom@,
            r.1.logs@.len() == outcome.logs@.len(),
            forall|k: int|
                0 <= k < r.1.logs@.len() ==> (#[trigger] r.1.logs@[k]).address@
                    == outcome.logs@[k].address@ && r.1.logs@[k].data@ == outcome.logs@[k].data@
                    && r.1.logs@[k].topics@.len() == outcome.logs@[k].topics@.len(),
    {
        let old_len = self.chain_state.blocks.len();
        let number = self.chain_state.block_number + 1;
        // Commit the engine's state mutation to the persisted store.
        let n_up = outcome.state_updates.len();
        let mut i: usize = 0;
        while i < n_up
            invariant
                i <= n_up,
                n_up == outcome.state_updates@.len(),
                self.chain_state.mkvs.wf(),
                self.chain_state.mkvs@ == apply_updates(
                    old(self).chain_state.mkvs@,
                    outcome.state_updates@,
                    i as int,
                ),
                self.chain_state.blocks == old(self).chain_state.blocks,
                self.chain_state.transactions == old(self).chain_state.transactions,
                self.chain_state.receipts == old(self).chain_state.receipts,
                self.chain_state.block_number == old(self).chain_state.block_number,
                self.gas_price == old(self).gas_price,
                self.km_client == old(self).km_client,
            decreases n_up - i,
        {
            let update = &outcome.state_updates[i];
            match &update.value {
                Some(v) => {
                    self.chain_state.mkvs.insert(copy_whole(&update.key), copy_whole(v));
                },
                None => {
                    self.chain_state.mkvs.remove(&update.key);
                },
            }
            i += 1;
        }
        // Create the block.
        let mut block = EthereumBlock::new(
            number,
            timestamp,
            outcome.gas_used,
            BLOCK_GAS_LIMIT,
            copy_whole(&outcome.log_bloom),
        );
        let block_hash = copy_whole(&block.hash);
        let txn_hash = copy_whole(&txn.hash);
        // Derive the created contract's address, for creations.
        let contract_address = match &txn.transaction.action {
            TxAction::Create => Some(
                compute_create_address(&txn.sender, &txn.transaction.nonce),
            ),
            TxAction::Call(_) => None,
        };
        // Localize the logs to their place on the chain.
        let n_logs = outcome.logs.len();
        let mut logs: Vec<LocalizedLogEntry> = Vec::new();
        let mut k: usize = 0;
        while k < n_logs
            invariant
                k <= n_logs,
                n_logs == outcome.logs@.len(),
                logs@.len() == k,
                forall|j: int|
                    0 <= j < k ==> {
                        let lc = #[trigger] logs@[j];
                        &&& lc.entry.address@ == outcome.logs@[j].address@
                        &&& lc.entry.data@ == outcome.logs@[j].data@
                        &&& lc.entry.topics@.len() == outcome.logs@[j].topics@.len()
                        &&& lc.block_number == number
                        &&& lc.block_hash@ == block_hash@
                        &&& lc.transaction_hash@ == txn_hash@
                        &&& lc.transaction_index == 0
                        &&& lc.transaction_log_index == j
                        &&& lc.log_index == j
                    },
            decreases n_logs - k,
        {
            logs.push(
                LocalizedLogEntry {
                    entry: outcome.logs[k].duplicate(),
                    block_hash: copy_whole(&block_hash),
                    block_number: number,
                    transaction_hash: copy_whole(&txn_hash),
                    transaction_index: 0,
                    transaction_log_index: k,
                    log_index: k,
                },
            );
            k += 1;
        }
        // Store the transaction inside the block and index it by its hash.
        let localized = LocalizedTransaction {
            signed: txn,
            block_number: number,
            block_hash: copy_whole(&block_hash),
            transaction_index: 0,
        };
        block.add_transaction(localized);
        self.chain_state.transactions.push((copy_whole(&txn_hash), number));
        // Store the receipt.
        let receipt = LocalizedReceipt {
            transaction_hash: copy_whole(&txn_hash),
            transaction_index: 0,
            block_hash: copy_whole(&block_hash),
            block_number: number,
            cumulative_gas_used: outcome.gas_used,
            gas_used: outcome.gas_used,
            contract_address,
            logs,
            log_bloom: copy_whole(&outcome.log_bloom),
            status_code: outcome.status_code,
        };
        self.chain_state.receipts.push((copy_whole(&txn_hash), receipt));
        // Store the block and advance the head.
        self.chain_state.blocks.push(block);
        self.chain_state.block_number = number;
        // Return the execution result.
        let mut result_logs: Vec<LogEntry> = Vec::new();
        let mut m: usize = 0;
        while m < n_logs
            invariant
                m <= n_logs,
                n_logs == outcome.logs@.len(),
                result_logs@.len() == m,
                forall|k: int|
                    0 <= k < m ==> (#[trigger] result_logs@[k]).address@
                        == outcome.logs@[k].address@ && result_logs@[k].data@
                        == outcome.logs@[k].data@ && result_logs@[k].topics@.len()
                        == outcome.logs@[k].topics@.len(),
            decreases n_logs - m,
        {
            result_logs.push(outcome.logs[m].duplicate());
            m += 1;
        }
        let result = ExecutionResult {
            cumulative_gas_used: outcome.gas_used,
            gas_used: outcome.gas_used,
            log_bloom: copy_whole(&outcome.log_bloom),
            logs: result_logs,
            status_code: outcome.status_code,
            output: copy_whole(&outcome.output),
        };
        proof {
            assert(final(self).chain_state.blocks@.drop_last() =~= old(self).chain_state.blocks@);
            assert(final(self).chain_state.transactions@.drop_last() =~= old(self).chain_state.transactions@);
            assert(final(self).chain_state.receipts@.drop_last() =~= old(self).chain_state.receipts@);
        }
        (txn_hash, result)
    }

    /// The whole submission pipeline: validate the raw bytes, and commit
    /// the outcome the engine reported for the validated transaction. A
    /// rejected submission, and a failed execution, leave the chain state
    /// untouched; an accepted one appends exactly one block holding exactly
    /// this transaction.
    pub fn submit_transaction(
        &mut self,
        raw: &Vec<u8>,
        engine: Result<ExecutionOutcome, Vec<u8>>,
        timestamp: u64,
    ) -> (r: Result<(Vec<u8>, ExecutionResult), SubmitError>)
        requires
            old(self).wf(),
        ensures
            final(self).wf(),
            r is Err ==> *final(self) == *old(self),
            match r {
                Ok(res) => {
                    &&& engine is Ok
                    &&& res.0@ == keccak_of(raw@)
                    &&& final(self).chain_state.block_number == old(self).chain_state.block_number + 1
                    &&& final(self).chain_state.blocks@.len() == old(self).chain_state.blocks@.len() + 1
                    &&& final(self).chain_state.blocks@.drop_last() == old(self).chain_state.blocks@
                    &&& final(self).chain_state.blocks@.last().number == old(self).chain_state.block_number + 1
                    &&& final(self).chain_state.blocks@.last().transactions@.len() == 1
                    &&& final(self).chain_state.blocks@.last().transactions@[0].signed.hash@ == keccak_of(raw@)
                    &&& spec_tx_rlp(
                        final(self).chain_state.blocks@.last().transactions@[0].signed.transaction,
                    ) == raw@
                    &&& final(self).chain_state.receipts@.len() == old(self).chain_state.receipts@.len() + 1
                    &&& final(self).chain_state.receipts@.drop_last() == old(self).chain_state.receipts@
                    &&& final(self).chain_state.receipts@.last().0@ == keccak_of(raw@)
                    &&& final(self).chain_state.receipts@.last().1.gas_used
                        == engine->Ok_0.gas_used
                    &&& final(self).chain_state.receipts@.last().1.status_code
                        == engine->Ok_0.status_code
                    &&& r->Ok_0.1.gas_used == engine->Ok_0.gas_used
                },
                Err(e) => match e {
                    SubmitError::DecodeError => forall|t: Transaction|
                        tx_wf(t) ==> raw@ != #[trigger] spec_tx_rlp(t),
                    SubmitError::GasTooHigh => (exists|t: Transaction|
                        tx_wf(t) && raw@ == #[trigger] spec_tx_rlp(t)) && forall|t: Transaction|
                        tx_wf(t) && raw@ == #[trigger] spec_tx_rlp(t) ==> be_val(t.gas@)
                            > BLOCK_GAS_LIMIT,
                    SubmitError::BadSignature => (exists|t: Transaction|
                        tx_wf(t) && raw@ == #[trigger] spec_tx_rlp(t)) && forall|t: Transaction|
                        tx_wf(t) && raw@ == #[trigger] spec_tx_rlp(t) ==> be_val(t.gas@)
                            <= BLOCK_GAS_LIMIT && spec_sender(t) is None,
                    SubmitError::GasPriceTooLow => (exists|t: Transaction|
                        tx_wf(t) && raw@ == #[trigger] spec_tx_rlp(t)) && forall|t: Transaction|
                        tx_wf(t) && raw@ == #[trigger] spec_tx_rlp(t) ==> be_val(t.gas@)
                            <= BLOCK_GAS_LIMIT && spec_sender(t) is Some && be_val(t.gas_price@)
                            < MIN_GAS_PRICE_WEI,
                    SubmitError::ExecutionError(m) => engine matches Err(msg) && m == msg,
                },
            },
    {
        let st = match self.send_raw_transaction(raw) {
            Ok(st) => st,
            Err(e) => {
                return Err(e);
            },
        };
        let outcome = match engine {
            Ok(o) => o,
            Err(msg) => {
                return Err(SubmitError::ExecutionError(msg));
            },
        };
        let (hash, result) = self.mine_block(st, &outcome, timestamp);
        Ok((hash, result))
    }

    /// The environment a simulated call runs in: the next prospective block
    /// number, with an unconstrained gas ceiling rather than the block gas
    /// limit.
    pub fn simulation_env(&self, timestamp: u64) -> (r: EnvInfo)
        requires
            self.wf(),
        ensures
            r.number == self.chain_state.block_number + 1,
            r.timestamp == timestamp,
            r.gas_limit == u128::MAX,
    {
        let len = self.chain_state.blocks.len();
        EnvInfo {
            number: self.chain_state.block_number + 1,
            timestamp,
            gas_limit: u128::MAX,
        }
    }

    /// Classifies the engine's report for a simulated call, never touching
    /// committed state: an engine error is an infrastructure failure, a
    /// trace is the simulation's outcome. Confidential contracts are not
    /// supported on this path: the snapshot is read in plaintext, a
    /// deliberate simplification of the simulation path.
    pub fn simulate_transaction(
        &self,
        _transaction: &SignedTransaction,
        _id: &BlockId,
        engine: Result<ExecutionTrace, Vec<u8>>,
    ) -> (r: Result<ExecutionTrace, CallError>)
        requires
            self.wf(),
        ensures
            match engine {
                Ok(tr) => r == Ok::<ExecutionTrace, CallError>(tr),
                Err(msg) => r == Err::<ExecutionTrace, CallError>(CallError::Internal(msg)),
            },
    {
        match engine {
            Ok(tr) => Ok(tr),
            Err(msg) => Err(CallError::Internal(msg)),
        }
    }

    /// Estimates the gas a call needs: the gas used plus the gas refunded
    /// from the simulated trace. Uses `simulate_transaction` internally and
    /// never touches committed state.
    pub fn estimate_gas(
        &self,
        transaction: &SignedTransaction,
        id: &BlockId,
        engine: Result<ExecutionTrace, Vec<u8>>,
    ) -> (r: Result<u128, CallError>)
        requires
            self.wf(),
        ensures
            match engine {
                Ok(tr) => r == Ok::<u128, CallError>((tr.gas_used + tr.refunded) as u128),
                Err(msg) => r == Err::<u128, CallError>(CallError::Internal(msg)),
            },
    {
        match self.simulate_transaction(transaction, id, engine) {
            Ok(tr) => Ok((tr.gas_used as u128) + (tr.refunded as u128)),
            Err(e) => Err(e),
        }
    }
}

/// The output a caller sees for a simulated call: an engine-reported revert
/// carries the call's output bytes, distinguished from an infrastructure
/// failure, which carries none.
pub fn interpret_call(engine: Result<ExecutionTrace, Vec<u8>>) -> (r: Result<Vec<u8>, CallError>)
    ensures
        match engine {
            Err(msg) => r == Err::<Vec<u8>, CallError>(CallError::Internal(msg)),
            Ok(tr) => match tr.exception {
                Some(_) => r == Err::<Vec<u8>, CallError>(CallError::Reverted(tr.output)),
                None => r == Ok::<Vec<u8>, CallError>(tr.output),
            },
        },
{
    match engine {
        Err(msg) => Err(CallError::Internal(msg)),
        Ok(tr) => match tr.exception {
            Some(_) => Err(CallError::Reverted(tr.output)),
            None => Ok(tr.output),
        },
    }
}

/// The presentation of a block header the RPC surface hands out. Fields the
/// simulator does not track (parent hash, state roots, difficulty) are zero,
/// as are the proof-of-work extras.
pub struct RichHeader {
    pub hash: Vec<u8>,
    pub parent_hash: Vec<u8>,
    pub number: u64,
    pub gas_used: u64,
    pub gas_limit: u64,
    pub logs_bloom: Vec<u8>,
    pub timestamp: u64,
    /// Dummy-valued proof-of-work extra: the mix hash, 32 zero bytes.
    pub extra_mix_hash: Vec<u8>,
    /// Dummy-valued proof-of-work extra: the nonce, 8 zero bytes.
    pub extra_pow_nonce: Vec<u8>,
}

/// How a rich block lists its transactions.
pub enum BlockTransactions {
    Full(Vec<SignedTransaction>),
    Hashes(Vec<Vec<u8>>),
}

/// The presentation of a whole block the RPC surface hands out.
pub struct RichBlock {
    pub header: RichHeader,
    pub transactions: BlockTransactions,
}

impl EthereumBlock {
    /// The block's header, presentation-ready.
    pub fn rich_header(&self) -> (r: RichHeader)
        ensures
            r.hash@ == self.hash@,
            r.number == self.number,
            r.gas_used == self.gas_used,
            r.gas_limit == self.gas_limit,
            r.logs_bloom@ == self.log_bloom@,
            r.timestamp == self.timestamp,
            r.parent_hash@ == Seq::new(32, |i: int| 0u8),
            r.extra_mix_hash@ == Seq::new(32, |i: int| 0u8),
            r.extra_pow_nonce@ == Seq::new(8, |i: int| 0u8),
    {
        RichHeader {
            hash: copy_whole(&self.hash),
            parent_hash: crate::bytes::zero_bytes(32),
            number: self.number,
            gas_used: self.gas_used,
            gas_limit: self.gas_limit,
            logs_bloom: copy_whole(&self.log_bloom),
            timestamp: self.timestamp,
            extra_mix_hash: crate::bytes::zero_bytes(32),
            extra_pow_nonce: crate::bytes::zero_bytes(8),
        }
    }

    /// The whole block, presentation-ready: with its transactions in full,
    /// or as their hashes.
    pub fn rich_block(&self, include_txs: bool) -> (r: RichBlock)
        ensures
            r.header.hash@ == self.hash@,
            r.header.number == self.number,
            r.header.gas_used == self.gas_used,
            r.header.gas_limit == self.gas_limit,
            r.header.logs_bloom@ == self.log_bloom@,
            r.header.timestamp == self.timestamp,
            include_txs ==> (r.transactions matches BlockTransactions::Full(txs) && txs@.len()
                == self.transactions@.len() && forall|k: int|
                0 <= k < txs@.len() ==> signed_alike(
                    #[trigger] txs@[k],
                    self.transactions@[k].signed,
                )),
            !include_txs ==> (r.transactions matches BlockTransactions::Hashes(hs) && hs@.len()
                == self.transactions@.len() && forall|k: int|
                0 <= k < hs@.len() ==> (#[trigger] hs@[k])@ == self.transactions@[k].signed.hash@),
    {
        let header = self.rich_header();
        let n = self.transactions.len();
        if include_txs {
            let mut txs: Vec<SignedTransaction> = Vec::new();
            let mut i: usize = 0;
            while i < n
                invariant
                    i <= n,
                    n == self.transactions@.len(),
                    txs@.len() == i,
                    forall|k: int|
                        0 <= k < i ==> signed_alike(
                            #[trigger] txs@[k],
                            self.transactions@[k].signed,
                        ),
                decreases n - i,
            {
                txs.push(self.transactions[i].signed.duplicate());
                i += 1;
            }
            RichBlock { header, transactions: BlockTransactions::Full(txs) }
        } else {
            let mut hs: Vec<Vec<u8>> = Vec::new();
            let mut i: usize = 0;
            while i < n
                invariant
                    i <= n,
                    n == self.transactions@.len(),
                    hs@.len() == i,
                    forall|k: int|
                        0 <= k < i ==> (#[trigger] hs@[k])@ == self.transactions@[k].signed.hash@,
                decreases n - i,
            {
                hs.push(copy_whole(&self.transactions[i].signed.hash));
                i += 1;
            }
            RichBlock { header, transactions: BlockTransactions::Hashes(hs) }
        }
    }
}

/// An address/topic log filter over a block range, both ends inclusive.
///
/// An empty address list admits every address; otherwise the log's address
/// must be one of the listed ones. Topic constraints are positional: the
/// filter's `p`-th alternative list constrains the log's `p`-th topic, an
/// empty list admitting anything and a non-empty one admitting any listed
/// value; a log with fewer topics than constrained positions does not match.
/// Constraints conjoin across positions and disjoin within one.
pub struct Filter {
    pub from_block: u64,
    pub to_block: u64,
    pub addresses: Vec<Vec<u8>>,
    pub topics: Vec<Vec<Vec<u8>>>,
}

pub open spec fn spec_address_matches(addrs: Seq<Vec<u8>>, a: Seq<u8>) -> bool {
    addrs.len() == 0 || exists|k: int| 0 <= k < addrs.len() && (#[trigger] addrs[k])@ == a
}

#[verifier::opaque]
pub open spec fn spec_topic_matches(alts: Seq<Vec<u8>>, topic: Seq<u8>) -> bool {
    alts.len() == 0 || exists|k: int| 0 <= k < alts.len() && (#[trigger] alts[k])@ == topic
}

/// Whether a log's topics satisfy a filter's positional constraints: the
/// log has a topic at every constrained position, and each satisfies its
/// position's constraint.
pub open spec fn spec_topics_match(ft: Seq<Vec<Vec<u8>>>, et: Seq<Vec<u8>>) -> bool {
    &&& ft.len() <= et.len()
    &&& forall|p: int|
        0 <= p < ft.len() ==> spec_topic_matches((#[trigger] ft[p])@, et[p]@)
}

/// Whether a log entry satisfies a filter's address and topic constraints.
pub open spec fn spec_log_matches(f: Filter, e: LogEntry) -> bool {
    &&& spec_address_matches(f.addresses@, e.address@)
    &&& spec_topics_match(f.topics@, e.topics@)
}

/// Decides whether a log entry satisfies a filter's address and topic
/// constraints.
pub fn log_matches(f: &Filter, e: &LogEntry) -> (r: bool)
    ensures
        r == spec_log_matches(*f, *e),
{
    // Address constraint.
    let na = f.addresses.len();
    if na > 0 {
        let mut k: usize = 0;
        let mut found = false;
        while k < na
            invariant
                k <= na,
                na == f.addresses@.len(),
                found == exists|j: int| 0 <= j < k && (#[trigger] f.addresses@[j])@ == e.address@,
            decreases na - k,
        {
            if crate::bytes::bytes_eq(&f.addresses[k], &e.address) {
                found = true;
            }
            k += 1;
        }
        if !found {
            assert(!spec_address_matches(f.addresses@, e.address@));
            return false;
        }
    }
    assert(spec_address_matches(f.addresses@, e.address@));
    // Topic constraints, position by position.
    let np = f.topics.len();
    let mut p: usize = 0;
    while p < np
        invariant
            p <= np,
            np == f.topics@.len(),
            p <= e.topics@.len(),
            spec_address_matches(f.addresses@, e.address@),
            forall|q: int|
                0 <= q < p ==> spec_topic_matches((#[trigger] f.topics@[q])@, e.topics@[q]@),
        decreases np - p,
    {
        if p >= e.topics.len() {
            assert(!spec_topics_match(f.topics@, e.topics@));
            return false;
        }
        proof {
            reveal(spec_topic_matches);
        }
        let nk = f.topics[p].len();
        if nk > 0 {
            let mut k: usize = 0;
            let mut found = false;
            while k < nk
                invariant
                    k <= nk,
                    p < np,
                    np == f.topics@.len(),
                    p < e.topics@.len(),
                    nk == f.topics@[p as int]@.len(),
                    found == exists|j: int|
                        0 <= j < k && (#[trigger] f.topics@[p as int]@[j])@ == e.topics@[
                            p as int
                        ]@,
                decreases nk - k,
            {
                if crate::bytes::bytes_eq(&f.topics[p][k], &e.topics[p]) {
                    found = true;
                }
                k += 1;
            }
            if !found {
                proof {
                    reveal(spec_topic_matches);
                }
                assert(!spec_topic_matches(f.topics@[p as int]@, e.topics@[p as int]@));
                assert(!spec_topics_match(f.topics@, e.topics@));
                return false;
            }
            proof {
                reveal(spec_topic_matches);
            }
            assert(spec_topic_matches(f.topics@[p as int]@, e.topics@[p as int]@));
        } else {
            proof {
                reveal(spec_topic_matches);
            }
            assert(spec_topic_matches(f.topics@[p as int]@, e.topics@[p as int]@));
        }
        p += 1;
    }
    assert(spec_topics_match(f.topics@, e.topics@));
    true
}

impl LocalizedLogEntry {
    /// Copies the localized log line.
    pub fn duplicate(&self) -> (r: Self)
        ensures
            r.entry.address@ == self.entry.address@,
            r.entry.data@ == self.entry.data@,
            r.entry.topics@.len() == self.entry.topics@.len(),
            forall|k: int|
                0 <= k < self.entry.topics@.len() ==> (#[trigger] r.entry.topics@[k])@
                    == self.entry.topics@[k]@,
            r.block_hash@ == self.block_hash@,
            r.block_number == self.block_number,
            r.transaction_hash@ == self.transaction_hash@,
            r.transaction_index == self.transaction_index,
            r.transaction_log_index == self.transaction_log_index,
            r.log_index == self.log_index,
            spec_log_matches_congruent(self.entry, r.entry),
    {
        let entry = self.entry.duplicate();
        proof {
            lemma_log_matches_congruent(self.entry, entry);
        }
        LocalizedLogEntry {
            entry,
            block_hash: copy_whole(&self.block_hash),
            block_number: self.block_number,
            transaction_hash: copy_whole(&self.transaction_hash),
            transaction_index: self.transaction_index,
            transaction_log_index: self.transaction_log_index,
            log_index: self.log_index,
        }
    }
}

/// Log entries with the same address and topic contents match the same
/// filters.
pub open spec fn spec_log_matches_congruent(a: LogEntry, b: LogEntry) -> bool {
    forall|f: Filter| spec_log_matches(f, a) <==> #[trigger] spec_log_matches(f, b)
}

/// Entries carrying the same address and topics match the same filters.
pub proof fn lemma_log_matches_congruent(a: LogEntry, b: LogEntry)
    requires
        a.address@ == b.address@,
        a.topics@.len() == b.topics@.len(),
        forall|k: int| 0 <= k < a.topics@.len() ==> (#[trigger] a.topics@[k])@ == b.topics@[k]@,
    ensures
        spec_log_matches_congruent(a, b),
{
    assert forall|f: Filter| spec_log_matches(f, a) <==> #[trigger] spec_log_matches(f, b) by {
        assert(forall|k: int|
            0 <= k < b.topics@.len() ==> (#[trigger] b.topics@[k])@ == a.topics@[k]@);
        if spec_log_matches(f, a) {
            lemma_log_matches_one_way(a, b, f);
        }
        if spec_log_matches(f, b) {
            lemma_log_matches_one_way(b, a, f);
        }
    }
}

proof fn lemma_log_matches_one_way(a: LogEntry, b: LogEntry, f: Filter)
    requires
        a.address@ == b.address@,
        a.topics@.len() == b.topics@.len(),
        forall|k: int| 0 <= k < a.topics@.len() ==> (#[trigger] a.topics@[k])@ == b.topics@[k]@,
        spec_log_matches(f, a),
    ensures
        spec_log_matches(f, b),
{
    assert(spec_address_matches(f.addresses@, b.address@));
    assert(spec_topics_match(f.topics@, b.topics@)) by {
        assert(f.topics@.len() <= b.topics@.len());
        assert forall|p: int| 0 <= p < f.topics@.len() implies spec_topic_matches(
            (#[trigger] f.topics@[p])@,
            b.topics@[p]@,
        ) by {
            assert(spec_topic_matches(f.topics@[p]@, a.topics@[p]@));
            assert(a.topics@[p]@ == b.topics@[p]@);
        }
    }
}

/// A returned log stands for a committed one: it carries, content for
/// content, the receipt log of its block at its index.
pub open spec fn log_faithful(lg: LocalizedLogEntry, c: ChainState) -> bool {
    &&& 1 <= lg.block_number
    &&& lg.block_number - 1 < c.receipts@.len()
    &&& lg.log_index < c.receipts@[lg.block_number - 1].1.logs@.len()
    &&& ({
        let src = c.receipts@[lg.block_number - 1].1.logs@[lg.log_index as int];
        &&& lg.entry.address@ == src.entry.address@
        &&& lg.entry.data@ == src.entry.data@
        &&& lg.entry.topics@.len() == src.entry.topics@.len()
        &&& (forall|q: int|
            0 <= q < src.entry.topics@.len() ==> (#[trigger] lg.entry.topics@[q])@
                == src.entry.topics@[q]@)
        &&& lg.block_hash@ == src.block_hash@
        &&& lg.transaction_hash@ == src.transaction_hash@
        &&& lg.transaction_index == src.transaction_index
        &&& lg.transaction_log_index == src.transaction_log_index
    })
}

/// Whether a delivery list already holds the log at `log_index` of the
/// block numbered `bn`.
pub open spec fn delivered_log(out: Seq<LocalizedLogEntry>, bn: int, li: int) -> bool {
    exists|k: int|
        0 <= k < out.len() && (#[trigger] out[k]).block_number == bn && out[k].log_index == li
}

/// Growing a delivery list loses no delivery.
proof fn lemma_delivered_push(out: Seq<LocalizedLogEntry>, x: LocalizedLogEntry)
    ensures
        forall|bn: int, li: int|
            delivered_log(out, bn, li) ==> #[trigger] delivered_log(out.push(x), bn, li),
        forall|bn: int, li: int|
            delivered_log(out, bn, li) ==> delivered_log(#[trigger] out.push(x), bn, li),
{
    assert forall|bn: int, li: int| delivered_log(out, bn, li) implies #[trigger] delivered_log(
        out.push(x),
        bn,
        li,
    ) by {
        let k = choose|k: int|
            0 <= k < out.len() && (#[trigger] out[k]).block_number == bn && out[k].log_index == li;
        assert(out.push(x)[k] == out[k]);
    }
}

impl Blockchain {
    /// Looks up the logs the given filter admits, oldest block first.
    ///
    /// Every returned entry lies in the filter's block range (clipped to the
    /// chain head) and satisfies the filter, and every committed log that
    /// does is returned.
    pub fn logs(&self, filter: &Filter) -> (r: Vec<LocalizedLogEntry>)
        requires
            self.wf(),
        ensures
            forall|k: int|
                0 <= k < r@.len() ==> {
                    let lg = #[trigger] r@[k];
                    &&& filter.from_block <= lg.block_number <= filter.to_block
                    &&& lg.block_number < self.chain_state.blocks@.len()
                    &&& spec_log_matches(*filter, lg.entry)
                    &&& log_faithful(lg, self.chain_state)
                },
            forall|k1: int, k2: int|
                0 <= k1 < k2 < r@.len() ==> (#[trigger] r@[k1]).block_number <= (
                #[trigger] r@[k2]).block_number,
            forall|j: int, l: int|
                0 <= j < self.chain_state.receipts@.len() && 0 <= l
                    < self.chain_state.receipts@[j].1.logs@.len() && filter.from_block <= j + 1
                    <= filter.to_block && spec_log_matches(
                    *filter,
                    (#[trigger] self.chain_state.receipts@[j].1.logs@[l]).entry,
                ) ==> delivered_log(r@, j + 1, l),
    {
        let mut out: Vec<LocalizedLogEntry> = Vec::new();
        let n = self.chain_state.receipts.len();
        let mut j: usize = 0;
        while j < n
            invariant
                j <= n,
                self.wf(),
                n == self.chain_state.receipts@.len(),
                forall|k: int|
                    0 <= k < out@.len() ==> {
                        let lg = #[trigger] out@[k];
                        &&& filter.from_block <= lg.block_number <= filter.to_block
                        &&& lg.block_number < self.chain_state.blocks@.len()
                        &&& lg.block_number <= j
                        &&& spec_log_matches(*filter, lg.entry)
                        &&& log_faithful(lg, self.chain_state)
                    },
                forall|k1: int, k2: int|
                    0 <= k1 < k2 < out@.len() ==> (#[trigger] out@[k1]).block_number <= (
                    #[trigger] out@[k2]).block_number,
                forall|j2: int, l2: int|
                    0 <= j2 < j && 0 <= l2 < self.chain_state.receipts@[j2].1.logs@.len()
                        && filter.from_block <= j2 + 1 <= filter.to_block && spec_log_matches(
                        *filter,
                        (#[trigger] self.chain_state.receipts@[j2].1.logs@[l2]).entry,
                    ) ==> delivered_log(out@, j2 + 1, l2),
            decreases n - j,
        {
            let bn = (j + 1) as u64;
            if filter.from_block <= bn && bn <= filter.to_block {
                let receipt = &self.chain_state.receipts[j].1;
                let nl = receipt.logs.len();
                let mut l: usize = 0;
                while l < nl
                    invariant
                        l <= nl,
                        self.wf(),
                        j < n,
                        n == self.chain_state.receipts@.len(),
                        receipt == &self.chain_state.receipts@[j as int].1,
                        nl == receipt.logs@.len(),
                        bn == j + 1,
                        filter.from_block <= bn <= filter.to_block,
                        forall|k: int|
                            0 <= k < out@.len() ==> {
                                let lg = #[trigger] out@[k];
                                &&& filter.from_block <= lg.block_number <= filter.to_block
                                &&& lg.block_number < self.chain_state.blocks@.len()
                                &&& lg.block_number <= j + 1
                                &&& spec_log_matches(*filter, lg.entry)
                                &&& log_faithful(lg, self.chain_state)
                            },
                        forall|k1: int, k2: int|
                            0 <= k1 < k2 < out@.len() ==> (#[trigger] out@[k1]).block_number <= (
                            #[trigger] out@[k2]).block_number,
                        forall|j2: int, l2: int|
                            0 <= j2 < j && 0 <= l2 < self.chain_state.receipts@[j2].1.logs@.len()
                                && filter.from_block <= j2 + 1 <= filter.to_block
                                && spec_log_matches(
                                *filter,
                                (#[trigger] self.chain_state.receipts@[j2].1.logs@[l2]).entry,
                            ) ==> delivered_log(out@, j2 + 1, l2),
                        forall|l2: int|
                            0 <= l2 < l && spec_log_matches(
                                *filter,
                                (#[trigger] receipt.logs@[l2]).entry,
                            ) ==> delivered_log(out@, j + 1, l2),
                    decreases nl - l,
                {
                    let lg = &receipt.logs[l];
                    if log_matches(filter, &lg.entry) {
                        let dup = lg.duplicate();
                        proof {
                            // The chain invariant places every log of
                            // receipt `j` in block `j + 1`, at its index.
                            assert(lg.block_number as int == j + 1 && lg.log_index == l);
                            assert(log_faithful(dup, self.chain_state)) by {
                                assert(self.chain_state.receipts@[dup.block_number - 1].1.logs@[
                                dup.log_index as int] == receipt.logs@[l as int]);
                            }
                            lemma_delivered_push(out@, dup);
                        }
                        out.push(dup);
                        proof {
                            assert(out@[out@.len() - 1] == dup);
                            assert(delivered_log(out@, j + 1, l as int));
                        }
                    }
                    l += 1;
                }
            }
            j += 1;
        }
        out
    }
}

/// Block numbers are strictly increasing and gapless, starting at zero: in
/// a well-formed chain the block at index `i` carries number `i`, so the
/// chain opens with genesis and consecutive blocks differ by exactly one.
pub proof fn lemma_block_numbers_gapless(c: ChainState)
    requires
        chain_wf(c),
    ensures
        c.blocks@[0].number == 0,
        forall|i: int| 0 <= i < c.blocks@.len() ==> (#[trigger] c.blocks@[i]).number as int == i,
        forall|i: int|
            1 <= i < c.blocks@.len() ==> (#[trigger] c.blocks@[i]).number == c.blocks@[i
                - 1].number + 1,
        c.blocks@.last().number == c.block_number,
{
}

} // verus!
