//! End-to-end exercises of the coordinator: submissions, rejections,
//! mining, queries, and the head-notification scenario.
use oasis_chain::blockchain::Blockchain;
use oasis_chain::blockchain::BlockId;
use oasis_chain::blockchain::ExecutionOutcome;
use oasis_chain::blockchain::ExecutionTrace;
use oasis_chain::blockchain::CallError;
use oasis_chain::blockchain::LogEntry;
use oasis_chain::blockchain::SubmitError;
use oasis_chain::blockchain::interpret_call;
use oasis_chain::bytes::u64_to_min_be;
use oasis_chain::crypto::keccak256;
use oasis_chain::keymanager::MockClient;
use oasis_chain::pubsub::EthPubSubClient;
use oasis_chain::pubsub::SubscriptionKind;
use oasis_chain::tx::encode_transaction;
use oasis_chain::tx::encode_unsigned;
use oasis_chain::tx::Transaction;
use oasis_chain::tx::TxAction;
use oasis_chain::util::gwei_to_wei;

const GWEI: u64 = 1_000_000_000;

fn trim_leading_zeros(b: &[u8]) -> Vec<u8> {
    let mut i = 0;
    while i < b.len() && b[i] == 0 {
        i += 1;
    }
    b[i..].to_vec()
}

/// Builds a legacy-signed transaction over the given secret key.
fn signed_tx(
    nonce: u64,
    gas_price: u64,
    gas: u64,
    to: Option<[u8; 20]>,
    value: u64,
    data: Vec<u8>,
    sk: &[u8; 32],
) -> Transaction {
    let mut t = Transaction {
        nonce: u64_to_min_be(nonce),
        gas_price: u64_to_min_be(gas_price),
        gas: u64_to_min_be(gas),
        action: match to {
            Some(addr) => TxAction::Call(addr.to_vec()),
            None => TxAction::Create,
        },
        value: u64_to_min_be(value),
        data,
        v: 0,
        sig_r: Vec::new(),
        sig_s: Vec::new(),
    };
    let preimage = encode_unsigned(&t, None);
    let digest = keccak256(&preimage);
    let mut d32 = [0u8; 32];
    d32.copy_from_slice(&digest);
    let message = libsecp256k1::Message::parse(&d32);
    let secret = libsecp256k1::SecretKey::parse(sk).unwrap();
    let (sig, recid) = libsecp256k1::sign(&message, &secret);
    let ser = sig.serialize();
    t.sig_r = trim_leading_zeros(&ser[0..32]);
    t.sig_s = trim_leading_zeros(&ser[32..64]);
    t.v = 27 + recid.serialize() as u64;
    t
}

fn transfer_outcome(gas_used: u64) -> ExecutionOutcome {
    ExecutionOutcome {
        gas_used,
        refunded: 0,
        logs: Vec::new(),
        log_bloom: vec![0u8; 256],
        status_code: 1,
        output: Vec::new(),
        state_updates: Vec::new(),
    }
}

fn new_chain() -> Blockchain {
    Blockchain::new(gwei_to_wei(1), MockClient::new())
}

#[test]
fn genesis_chain_starts_at_block_zero() {
    let chain = new_chain();
    assert_eq!(chain.best_block_number(), 0);
    let genesis = chain.get_latest_block();
    assert_eq!(genesis.number_u64(), 0);
    assert_eq!(genesis.transactions().len(), 0);
    assert_eq!(genesis.hash().len(), 32);
}

#[test]
fn submit_value_transfer_mines_block_one() {
    let mut chain = new_chain();
    let t1 = signed_tx(0, 2 * GWEI, 21000, Some([0x11; 20]), 1_000_000, Vec::new(), &[1u8; 32]);
    let raw = encode_transaction(&t1);
    let expected_hash = keccak256(&raw);
    let (tx_hash, result) = chain
        .submit_transaction(&raw, Ok(transfer_outcome(21000)), 1000)
        .expect("a valid transfer must be accepted");
    assert_eq!(tx_hash, expected_hash);
    assert_eq!(result.gas_used, 21000);
    assert_eq!(result.status_code, 1);
    assert_eq!(chain.best_block_number(), 1);
    // The new block holds exactly this transaction.
    let block = chain.get_block_by_number(1).expect("block one must exist");
    assert_eq!(block.transactions().len(), 1);
    assert_eq!(block.transactions()[0].signed.hash, tx_hash);
    assert_eq!(block.number_u64(), 1);
    assert_eq!(block.gas_used, 21000);
    // The receipt is keyed by the transaction hash.
    let receipt = chain.get_txn_receipt_by_hash(&tx_hash).expect("receipt must exist");
    assert_eq!(receipt.status_code, 1);
    assert_eq!(receipt.gas_used, 21000);
    assert_eq!(receipt.block_number, 1);
    assert!(receipt.contract_address.is_none());
    // Lookup by hash finds the transaction.
    let found = chain.get_txn_by_hash(&tx_hash).expect("transaction must be indexed");
    assert_eq!(found.block_number, 1);
    assert_eq!(found.transaction_index, 0);
}

#[test]
fn contract_creation_derives_an_address() {
    let mut chain = new_chain();
    let t = signed_tx(0, 2 * GWEI, 100_000, None, 0, vec![0x60, 0x00], &[2u8; 32]);
    let raw = encode_transaction(&t);
    let (tx_hash, _) = chain
        .submit_transaction(&raw, Ok(transfer_outcome(53_000)), 1000)
        .expect("a creation must be accepted");
    let receipt = chain.get_txn_receipt_by_hash(&tx_hash).expect("receipt must exist");
    let addr = receipt.contract_address.as_ref().expect("creations get an address");
    assert_eq!(addr.len(), 20);
}

#[test]
fn gas_above_block_limit_is_rejected() {
    let mut chain = new_chain();
    let t = signed_tx(0, 2 * GWEI, 20_000_000, Some([0x11; 20]), 0, Vec::new(), &[1u8; 32]);
    let raw = encode_transaction(&t);
    let before = chain.best_block_number();
    let r = chain.submit_transaction(&raw, Ok(transfer_outcome(21000)), 1000);
    assert!(matches!(r, Err(SubmitError::GasTooHigh)));
    // The rejection left the chain untouched.
    assert_eq!(chain.best_block_number(), before);
    assert_eq!(chain.chain_state.transactions.len(), 0);
    assert_eq!(chain.chain_state.receipts.len(), 0);
}

#[test]
fn gas_price_below_floor_is_rejected() {
    let mut chain = new_chain();
    // One wei is far below the one-Gwei floor.
    let t = signed_tx(0, 1, 21000, Some([0x11; 20]), 0, Vec::new(), &[1u8; 32]);
    let raw = encode_transaction(&t);
    let r = chain.submit_transaction(&raw, Ok(transfer_outcome(21000)), 1000);
    assert!(matches!(r, Err(SubmitError::GasPriceTooLow)));
    assert_eq!(chain.best_block_number(), 0);
    assert_eq!(chain.chain_state.receipts.len(), 0);
}

#[test]
fn unusable_replay_byte_is_a_bad_signature() {
    let mut chain = new_chain();
    let mut t = signed_tx(0, 2 * GWEI, 21000, Some([0x11; 20]), 0, Vec::new(), &[1u8; 32]);
    t.v = 29;  // neither a legacy marker nor a chain marker
    let raw = encode_transaction(&t);
    let r = chain.submit_transaction(&raw, Ok(transfer_outcome(21000)), 1000);
    assert!(matches!(r, Err(SubmitError::BadSignature)));
    assert_eq!(chain.best_block_number(), 0);
}

#[test]
fn all_zero_scalars_are_a_bad_signature() {
    let mut chain = new_chain();
    let mut t = signed_tx(0, 2 * GWEI, 21000, Some([0x11; 20]), 0, Vec::new(), &[1u8; 32]);
    t.sig_r = Vec::new();
    t.sig_s = Vec::new();
    let raw = encode_transaction(&t);
    let r = chain.submit_transaction(&raw, Ok(transfer_outcome(21000)), 1000);
    assert!(matches!(r, Err(SubmitError::BadSignature)));
    assert_eq!(chain.best_block_number(), 0);
}

#[test]
fn undecodable_bytes_are_rejected() {
    let mut chain = new_chain();
    let raw = vec![0xde, 0xad, 0xbe, 0xef];
    let r = chain.submit_transaction(&raw, Ok(transfer_outcome(21000)), 1000);
    assert!(matches!(r, Err(SubmitError::DecodeError)));
    assert_eq!(chain.best_block_number(), 0);
    assert_eq!(chain.chain_state.transactions.len(), 0);
}

#[test]
fn engine_failure_commits_nothing() {
    let mut chain = new_chain();
    let t = signed_tx(0, 2 * GWEI, 21000, Some([0x11; 20]), 0, Vec::new(), &[1u8; 32]);
    let raw = encode_transaction(&t);
    let r = chain.submit_transaction(&raw, Err(b"engine unavailable".to_vec()), 1000);
    assert!(matches!(r, Err(SubmitError::ExecutionError(_))));
    assert_eq!(chain.best_block_number(), 0);
    assert_eq!(chain.chain_state.receipts.len(), 0);
}

#[test]
fn block_numbers_are_gapless() {
    let mut chain = new_chain();
    for nonce in 0..3u64 {
        let t = signed_tx(nonce, 2 * GWEI, 21000, Some([0x11; 20]), 0, Vec::new(), &[1u8; 32]);
        let raw = encode_transaction(&t);
        chain.submit_transaction(&raw, Ok(transfer_outcome(21000)), 1000 + nonce).unwrap();
    }
    assert_eq!(chain.best_block_number(), 3);
    for n in 0..4u64 {
        let b = chain.get_block_by_number(n).expect("every block up to the head exists");
        assert_eq!(b.number_u64(), n);
    }
    assert!(chain.get_block_by_number(4).is_none());
}

#[test]
fn blocks_are_found_by_their_hash() {
    let mut chain = new_chain();
    let t = signed_tx(0, 2 * GWEI, 21000, Some([0x11; 20]), 0, Vec::new(), &[1u8; 32]);
    let raw = encode_transaction(&t);
    chain.submit_transaction(&raw, Ok(transfer_outcome(21000)), 1000).unwrap();
    let hash = chain.get_block_by_number(1).unwrap().hash().clone();
    let by_hash = chain.get_block_by_hash(&hash).expect("hash lookup must succeed");
    assert_eq!(by_hash.number_u64(), 1);
    assert!(chain.get_block_by_hash(&vec![0u8; 32]).is_none());
    let by_id = chain.get_block(&BlockId::Hash(hash)).unwrap();
    assert_eq!(by_id.number_u64(), 1);
    assert_eq!(chain.get_block(&BlockId::Latest).unwrap().number_u64(), 1);
    assert_eq!(chain.get_block(&BlockId::Earliest).unwrap().number_u64(), 0);
}

#[test]
fn simulation_runs_against_a_snapshot() {
    let chain = new_chain();
    let env = chain.simulation_env(555);
    assert_eq!(env.number, 1);
    assert_eq!(env.timestamp, 555);
    assert_eq!(env.gas_limit, u128::MAX);
    let t = signed_tx(0, 2 * GWEI, 21000, Some([0x11; 20]), 0, Vec::new(), &[1u8; 32]);
    let trace = ExecutionTrace { gas_used: 21000, refunded: 500, output: vec![7], exception: None };
    let r = chain.simulate_transaction(&t_signed(&chain, &t), &BlockId::Latest, Ok(trace));
    let trace = r.expect("a clean trace passes through");
    assert_eq!(trace.gas_used, 21000);
    // The simulation path never created a block.
    assert_eq!(chain.best_block_number(), 0);
}

/// Validates a transaction through the coordinator, for the simulation calls.
fn t_signed(chain: &Blockchain, t: &Transaction) -> oasis_chain::tx::SignedTransaction {
    let raw = encode_transaction(t);
    chain.send_raw_transaction(&raw).expect("the test transaction must validate")
}

#[test]
fn estimate_gas_sums_used_and_refunded() {
    let chain = new_chain();
    let t = signed_tx(0, 2 * GWEI, 21000, Some([0x11; 20]), 0, Vec::new(), &[1u8; 32]);
    let st = t_signed(&chain, &t);
    let trace = ExecutionTrace { gas_used: 21000, refunded: 500, output: Vec::new(), exception: None };
    let r = chain.estimate_gas(&st, &BlockId::Latest, Ok(trace)).unwrap();
    assert_eq!(r, 21500);
    let e = chain.estimate_gas(&st, &BlockId::Latest, Err(b"bad call".to_vec()));
    assert!(matches!(e, Err(CallError::Internal(_))));
    assert_eq!(chain.best_block_number(), 0);
}

#[test]
fn reverts_are_distinguished_from_failures() {
    let reverted = ExecutionTrace {
        gas_used: 300,
        refunded: 0,
        output: vec![8, 9],
        exception: Some(b"reverted".to_vec()),
    };
    match interpret_call(Ok(reverted)) {
        Err(CallError::Reverted(out)) => assert_eq!(out, vec![8, 9]),
        _ => panic!("a revert must carry the output bytes"),
    }
    match interpret_call(Err(b"malformed".to_vec())) {
        Err(CallError::Internal(msg)) => assert_eq!(msg, b"malformed".to_vec()),
        _ => panic!("an engine failure is an infrastructure error"),
    }
    let clean = ExecutionTrace { gas_used: 1, refunded: 0, output: vec![5], exception: None };
    match interpret_call(Ok(clean)) {
        Ok(out) => assert_eq!(out, vec![5]),
        _ => panic!("a clean call returns its output"),
    }
}

#[test]
fn heads_scenario_notifies_each_new_block_once() {
    // Start at genesis, mine block one.
    let mut chain = new_chain();
    let t1 = signed_tx(0, 2 * GWEI, 21000, Some([0x11; 20]), 1_000_000, Vec::new(), &[1u8; 32]);
    let raw1 = encode_transaction(&t1);
    let (_, result) = chain.submit_transaction(&raw1, Ok(transfer_outcome(21000)), 1000).unwrap();
    assert_eq!(result.status_code, 1);
    assert_eq!(result.gas_used, 21000);
    assert_eq!(chain.best_block_number(), 1);
    // An oversized submission is rejected and the chain stays at block one.
    let t2 = signed_tx(1, 2 * GWEI, 20_000_000, Some([0x11; 20]), 0, Vec::new(), &[1u8; 32]);
    let raw2 = encode_transaction(&t2);
    assert!(matches!(
        chain.submit_transaction(&raw2, Ok(transfer_outcome(21000)), 1001),
        Err(SubmitError::GasTooHigh)
    ));
    assert_eq!(chain.best_block_number(), 1);
    // Subscribe to new heads, then mine block two.
    let mut client = EthPubSubClient::new();
    let sub_id = client.subscribe(SubscriptionKind::NewHeads, None).unwrap();
    let t3 = signed_tx(1, 2 * GWEI, 21000, Some([0x22; 20]), 5, Vec::new(), &[1u8; 32]);
    let raw3 = encode_transaction(&t3);
    chain.submit_transaction(&raw3, Ok(transfer_outcome(21000)), 1002).unwrap();
    assert_eq!(chain.best_block_number(), 2);
    // Exactly one head notification, for block two.
    let notes = client.handler().notify_heads(&chain, 2, 2);
    assert_eq!(notes.len(), 1);
    assert_eq!(notes[0].0, sub_id);
    assert_eq!(notes[0].1.number, 2);
    // Unsubscribing succeeds exactly once.
    assert!(client.unsubscribe(sub_id));
    assert!(!client.unsubscribe(sub_id));
}

#[test]
fn state_updates_are_committed_to_the_store() {
    let mut chain = new_chain();
    let t = signed_tx(0, 2 * GWEI, 30000, Some([0x11; 20]), 0, Vec::new(), &[1u8; 32]);
    let raw = encode_transaction(&t);
    let outcome = ExecutionOutcome {
        gas_used: 30000,
        refunded: 0,
        logs: Vec::new(),
        log_bloom: vec![0u8; 256],
        status_code: 1,
        output: Vec::new(),
        state_updates: vec![
            oasis_chain::blockchain::StoreUpdate { key: b"balance".to_vec(), value: Some(vec![9]) },
        ],
    };
    chain.submit_transaction(&raw, Ok(outcome), 1000).unwrap();
    let snapshot = chain.state(&BlockId::Latest);
    assert_eq!(snapshot.get(&b"balance".to_vec()), Some(&vec![9u8]));
}

#[test]
fn receipts_localize_logs() {
    let mut chain = new_chain();
    let t = signed_tx(0, 2 * GWEI, 90000, Some([0x11; 20]), 0, Vec::new(), &[1u8; 32]);
    let raw = encode_transaction(&t);
    let outcome = ExecutionOutcome {
        gas_used: 90000,
        refunded: 0,
        logs: vec![
            LogEntry { address: vec![0xaa; 20], topics: vec![vec![0x01; 32]], data: vec![1] },
            LogEntry { address: vec![0xbb; 20], topics: Vec::new(), data: vec![2] },
        ],
        log_bloom: vec![0u8; 256],
        status_code: 1,
        output: Vec::new(),
        state_updates: Vec::new(),
    };
    let (tx_hash, _) = chain.submit_transaction(&raw, Ok(outcome), 1000).unwrap();
    let receipt = chain.get_txn_receipt_by_hash(&tx_hash).unwrap();
    assert_eq!(receipt.logs.len(), 2);
    assert_eq!(receipt.logs[0].block_number, 1);
    assert_eq!(receipt.logs[0].log_index, 0);
    assert_eq!(receipt.logs[1].log_index, 1);
    assert_eq!(receipt.logs[0].entry.address, vec![0xaa; 20]);
    assert_eq!(receipt.logs[0].transaction_hash, tx_hash);
}
