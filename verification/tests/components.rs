//! The storage, key-manager, confidential, pub/sub and utility components.
use oasis_chain::blockchain::Blockchain;
use oasis_chain::blockchain::BlockId;
use oasis_chain::blockchain::ExecutionOutcome;
use oasis_chain::blockchain::Filter;
use oasis_chain::blockchain::LogEntry;
use oasis_chain::bytes::u64_to_min_be;
use oasis_chain::confidential::read_storage;
use oasis_chain::confidential::write_storage;
use oasis_chain::confidential::public_key;
use oasis_chain::confidential::ConfidentialCtx;
use oasis_chain::crypto::keccak256;
use oasis_chain::keymanager::ContractKey;
use oasis_chain::keymanager::InputKeyPair;
use oasis_chain::keymanager::MockClient;
use oasis_chain::pubsub::EthPubSubClient;
use oasis_chain::pubsub::SubscriptionError;
use oasis_chain::pubsub::SubscriptionKind;
use oasis_chain::pubsub::SubscriptionParams;
use oasis_chain::pubsub::TxEntry;
use oasis_chain::pubsub::TxFilter;
use oasis_chain::storage::MemoryMKVS;
use oasis_chain::tx::encode_transaction;
use oasis_chain::tx::encode_unsigned;
use oasis_chain::tx::Transaction;
use oasis_chain::tx::TxAction;
use oasis_chain::util::block_number_to_id;
use oasis_chain::util::execution_error;
use oasis_chain::util::get_timestamp;
use oasis_chain::util::gwei_to_wei;
use oasis_chain::util::jsonrpc_error;
use oasis_chain::util::BlockNumber;
use oasis_chain::BLOCK_GAS_LIMIT;
use oasis_chain::MIN_GAS_PRICE_GWEI;
use oasis_chain::MIN_GAS_PRICE_WEI;

#[test]
fn store_shadows_and_removes() {
    let mut store = MemoryMKVS::new();
    assert!(store.get(&b"k".to_vec()).is_none());
    assert!(store.insert(b"k".to_vec(), vec![1]).is_none());
    assert_eq!(store.get(&b"k".to_vec()), Some(&vec![1u8]));
    // A second insert under the same key returns the shadowed value.
    assert_eq!(store.insert(b"k".to_vec(), vec![2]), Some(vec![1u8]));
    assert_eq!(store.get(&b"k".to_vec()), Some(&vec![2u8]));
    assert_eq!(store.remove(&b"k".to_vec()), Some(vec![2u8]));
    assert!(store.get(&b"k".to_vec()).is_none());
    assert!(store.remove(&b"k".to_vec()).is_none());
}

#[test]
fn store_snapshots_are_isolated() {
    let mut store = MemoryMKVS::new();
    store.insert(b"a".to_vec(), vec![1]);
    let snapshot = store.snapshot();
    store.insert(b"a".to_vec(), vec![2]);
    assert_eq!(snapshot.get(&b"a".to_vec()), Some(&vec![1u8]));
    assert_eq!(store.get(&b"a".to_vec()), Some(&vec![2u8]));
}

#[test]
fn key_manager_is_idempotent_per_contract() {
    let mut km = MockClient::new();
    let id = vec![0x07; 32];
    let first = km.get_or_create_keys(&id);
    let second = km.get_or_create_keys(&id);
    assert_eq!(first.input_keypair.get_pk(), second.input_keypair.get_pk());
    assert_eq!(first.input_keypair.get_sk(), second.input_keypair.get_sk());
    assert_eq!(first.state_key, second.state_key);
    // A different contract gets a different bundle.
    let other = km.get_or_create_keys(&vec![0x08; 32]);
    assert_ne!(first.input_keypair.get_pk(), other.input_keypair.get_pk());
}

#[test]
fn key_manager_answers_with_signed_public_keys() {
    let mut km = MockClient::new();
    let id = vec![0x07; 32];
    let bundle = km.get_or_create_keys(&id);
    let signed = km.get_public_key(&id).expect("the mock always answers");
    assert_eq!(&signed.key, bundle.input_keypair.get_pk());
    // The mock's checksum and signature are empty placeholders.
    assert!(signed.checksum.is_empty());
    assert!(signed.signature.is_empty());
}

#[test]
fn contract_key_constructors_keep_their_parts() {
    let ck = ContractKey::new(vec![1; 32], vec![2; 32], vec![3; 32], vec![4]);
    assert_eq!(ck.input_keypair.get_pk(), &vec![1u8; 32]);
    assert_eq!(ck.input_keypair.get_sk(), &vec![2u8; 32]);
    assert_eq!(ck.state_key, vec![3u8; 32]);
    assert_eq!(ck.checksum, vec![4u8]);
    let pk_only = ContractKey::from_public_key(vec![9; 32], Vec::new());
    assert_eq!(pk_only.input_keypair.get_pk(), &vec![9u8; 32]);
    assert_eq!(pk_only.input_keypair.get_sk(), &vec![0u8; 32]);
    assert_eq!(pk_only.state_key, vec![0u8; 32]);
    let pair = InputKeyPair::new(vec![5; 32], vec![6; 32]);
    assert_eq!(pair.get_pk(), &vec![5u8; 32]);
    assert_eq!(pair.get_sk(), &vec![6u8; 32]);
    let generated = ContractKey::generate_mock();
    assert_eq!(generated.input_keypair.get_pk().len(), 32);
    assert_eq!(generated.state_key.len(), 32);
    assert!(generated.checksum.is_empty());
}

#[test]
fn confidential_storage_round_trips() {
    let mut km = MockClient::new();
    let contract = vec![0x42; 20];
    let ctx = ConfidentialCtx::new(&contract, &mut km);
    assert_eq!(ctx.contract_id, keccak256(&contract));
    let mut store = MemoryMKVS::new();
    let value = b"secret balance".to_vec();
    assert!(write_storage(Some(&ctx), &mut store, b"slot".to_vec(), &value));
    // The stored bytes are not the plaintext.
    let at_rest = store.get(&b"slot".to_vec()).expect("the write persisted").clone();
    assert_ne!(at_rest, value);
    assert!(at_rest.len() >= value.len() + 12 + 16);
    // Reading through the context yields the plaintext back.
    let read = read_storage(Some(&ctx), &store, &b"slot".to_vec());
    assert_eq!(read, Some(value.clone()));
    // A context over a different contract cannot open it.
    let other = ConfidentialCtx::new(&vec![0x43; 20], &mut km);
    assert!(read_storage(Some(&other), &store, &b"slot".to_vec()).is_none());
    // Without a context, storage passes through unmodified.
    let mut plain = MemoryMKVS::new();
    assert!(write_storage(None, &mut plain, b"slot".to_vec(), &value));
    assert_eq!(read_storage(None, &plain, &b"slot".to_vec()), Some(value));
}

#[test]
fn public_keys_are_served_per_contract_address() {
    let mut km = MockClient::new();
    let contract = vec![0x42; 20];
    let payload = public_key(&mut km, &contract).expect("the mock always answers");
    assert_eq!(payload.public_key.len(), 32);
    assert!(payload.checksum.is_empty());
    assert!(payload.signature.is_empty());
    // The bundle is the one stored under the hashed address.
    let id = keccak256(&contract);
    let bundle = km.get_or_create_keys(&id);
    assert_eq!(&payload.public_key, bundle.input_keypair.get_pk());
}

#[test]
fn subscriptions_validate_their_parameters() {
    let mut client = EthPubSubClient::new();
    // Heads take no parameters.
    let empty_filter = Filter {
        from_block: 0,
        to_block: 0,
        addresses: Vec::new(),
        topics: Vec::new(),
    };
    let r = client.subscribe(
        SubscriptionKind::NewHeads,
        Some(SubscriptionParams::Logs(empty_filter)),
    );
    assert!(matches!(r, Err(SubscriptionError::InvalidParams)));
    // Logs expect a filter object.
    let r = client.subscribe(SubscriptionKind::Logs, None);
    assert!(matches!(r, Err(SubscriptionError::InvalidParams)));
    // Completed transactions expect a transaction filter.
    let r = client.subscribe(SubscriptionKind::CompletedTransaction, None);
    assert!(matches!(r, Err(SubscriptionError::InvalidParams)));
    // Pending transactions are not tracked at all.
    let r = client.subscribe(SubscriptionKind::NewPendingTransactions, None);
    assert!(matches!(r, Err(SubscriptionError::Unimplemented)));
    // Identifiers are fresh and unique across classes.
    let a = client.subscribe(SubscriptionKind::NewHeads, None).unwrap();
    let b = client
        .subscribe(
            SubscriptionKind::CompletedTransaction,
            Some(SubscriptionParams::Transaction(TxFilter { sender: None, recipient: None })),
        )
        .unwrap();
    assert_ne!(a, b);
    // Unsubscribe answers true exactly once, whatever the class.
    assert!(client.unsubscribe(b));
    assert!(!client.unsubscribe(b));
    assert!(client.unsubscribe(a));
    assert!(!client.unsubscribe(a));
    assert!(!client.unsubscribe(9999));
}

fn signed_transfer(nonce: u64, to: [u8; 20], sk: &[u8; 32]) -> Vec<u8> {
    let mut t = Transaction {
        nonce: u64_to_min_be(nonce),
        gas_price: u64_to_min_be(2_000_000_000),
        gas: u64_to_min_be(90_000),
        action: TxAction::Call(to.to_vec()),
        value: u64_to_min_be(1),
        data: Vec::new(),
        v: 0,
        sig_r: Vec::new(),
        sig_s: Vec::new(),
    };
    let preimage = encode_unsigned(&t, None);
    let digest = keccak256(&preimage);
    let mut d32 = [0u8; 32];
    d32.copy_from_slice(&digest);
    let secret = libsecp256k1::SecretKey::parse(sk).unwrap();
    let (sig, recid) = libsecp256k1::sign(&libsecp256k1::Message::parse(&d32), &secret);
    let ser = sig.serialize();
    let strip = |b: &[u8]| -> Vec<u8> {
        let mut i = 0;
        while i < b.len() && b[i] == 0 {
            i += 1;
        }
        b[i..].to_vec()
    };
    t.sig_r = strip(&ser[0..32]);
    t.sig_s = strip(&ser[32..64]);
    t.v = 27 + recid.serialize() as u64;
    encode_transaction(&t)
}

fn outcome_with_log(address: Vec<u8>, topic: Vec<u8>) -> ExecutionOutcome {
    ExecutionOutcome {
        gas_used: 90_000,
        refunded: 0,
        logs: vec![LogEntry { address, topics: vec![topic], data: vec![7] }],
        log_bloom: vec![0u8; 256],
        status_code: 1,
        output: Vec::new(),
        state_updates: Vec::new(),
    }
}

#[test]
fn log_queries_filter_by_address_topic_and_range() {
    let mut chain = Blockchain::new(gwei_to_wei(1), MockClient::new());
    let addr_a = vec![0xaa; 20];
    let addr_b = vec![0xbb; 20];
    let topic_x = vec![0x01; 32];
    let topic_y = vec![0x02; 32];
    // Block 1: a log at address A with topic X; block 2: address B, topic Y.
    let raw1 = signed_transfer(0, [0x11; 20], &[1u8; 32]);
    chain.submit_transaction(&raw1, Ok(outcome_with_log(addr_a.clone(), topic_x.clone())), 1).unwrap();
    let raw2 = signed_transfer(1, [0x11; 20], &[1u8; 32]);
    chain.submit_transaction(&raw2, Ok(outcome_with_log(addr_b.clone(), topic_y.clone())), 2).unwrap();
    // Address filtering.
    let only_a = Filter {
        from_block: 0,
        to_block: 10,
        addresses: vec![addr_a.clone()],
        topics: Vec::new(),
    };
    let found = chain.logs(&only_a);
    assert_eq!(found.len(), 1);
    assert_eq!(found[0].entry.address, addr_a);
    assert_eq!(found[0].block_number, 1);
    // Topic filtering: position constrained to either X or Y matches both.
    let either_topic = Filter {
        from_block: 0,
        to_block: 10,
        addresses: Vec::new(),
        topics: vec![vec![topic_x.clone(), topic_y.clone()]],
    };
    assert_eq!(chain.logs(&either_topic).len(), 2);
    // Range filtering, both ends inclusive.
    let only_block_2 = Filter {
        from_block: 2,
        to_block: 2,
        addresses: Vec::new(),
        topics: Vec::new(),
    };
    let found = chain.logs(&only_block_2);
    assert_eq!(found.len(), 1);
    assert_eq!(found[0].block_number, 2);
    // A topic constraint on a position the log lacks matches nothing.
    let two_positions = Filter {
        from_block: 0,
        to_block: 10,
        addresses: Vec::new(),
        topics: vec![Vec::new(), vec![topic_x.clone()]],
    };
    assert_eq!(chain.logs(&two_positions).len(), 0);
}

#[test]
fn log_subscribers_receive_only_matching_new_logs() {
    let mut chain = Blockchain::new(gwei_to_wei(1), MockClient::new());
    let addr_a = vec![0xaa; 20];
    let addr_b = vec![0xbb; 20];
    // Block 1 (before the subscription): a log at address A.
    let raw1 = signed_transfer(0, [0x11; 20], &[1u8; 32]);
    chain.submit_transaction(&raw1, Ok(outcome_with_log(addr_a.clone(), vec![0x01; 32])), 1).unwrap();
    // Subscribe to logs at address A.
    let mut client = EthPubSubClient::new();
    let filter_a = Filter {
        from_block: 0,
        to_block: u64::MAX,
        addresses: vec![addr_a.clone()],
        topics: Vec::new(),
    };
    let sub = client.subscribe(SubscriptionKind::Logs, Some(SubscriptionParams::Logs(filter_a))).unwrap();
    // Block 2: a log at address A; block 3: a log at address B.
    let raw2 = signed_transfer(1, [0x11; 20], &[1u8; 32]);
    chain.submit_transaction(&raw2, Ok(outcome_with_log(addr_a.clone(), vec![0x01; 32])), 2).unwrap();
    let raw3 = signed_transfer(2, [0x11; 20], &[1u8; 32]);
    chain.submit_transaction(&raw3, Ok(outcome_with_log(addr_b.clone(), vec![0x01; 32])), 3).unwrap();
    // Fan out for the committed range [2, 3]: exactly the new log at A,
    // nothing retroactive from block 1, nothing from address B.
    let notes = client.handler().notify_logs(&chain, 2, 3);
    assert_eq!(notes.len(), 1);
    assert_eq!(notes[0].0, sub);
    assert_eq!(notes[0].1.block_number, 2);
    assert_eq!(notes[0].1.entry.address, addr_a);
    // The combined fan-out carries the same log notifications.
    let (heads, logs) = client.handler().notify_blocks(&chain, 2, 3);
    assert_eq!(heads.len(), 0);
    assert_eq!(logs.len(), 1);
}

#[test]
fn completed_transaction_subscribers_filter_by_predicate() {
    let mut client = EthPubSubClient::new();
    let watched = client
        .subscribe(
            SubscriptionKind::CompletedTransaction,
            Some(SubscriptionParams::Transaction(TxFilter {
                sender: Some(vec![0x55; 20]),
                recipient: None,
            })),
        )
        .unwrap();
    let _other = client
        .subscribe(
            SubscriptionKind::CompletedTransaction,
            Some(SubscriptionParams::Transaction(TxFilter {
                sender: Some(vec![0x66; 20]),
                recipient: None,
            })),
        )
        .unwrap();
    let entry = TxEntry {
        transaction_hash: vec![0x99; 32],
        sender: vec![0x55; 20],
        recipient: Some(vec![0x11; 20]),
    };
    let notes = client.handler().notify_completed_transaction(&entry, &vec![1, 2]);
    assert_eq!(notes.len(), 1);
    assert_eq!(notes[0].0, watched);
    assert_eq!(notes[0].1.hash, vec![0x99; 32]);
    assert_eq!(notes[0].1.output, vec![1, 2]);
}

#[test]
fn rich_presentations_mirror_the_block() {
    let mut chain = Blockchain::new(gwei_to_wei(1), MockClient::new());
    let raw = signed_transfer(0, [0x11; 20], &[1u8; 32]);
    let (tx_hash, _) = chain
        .submit_transaction(
            &raw,
            Ok(outcome_with_log(vec![0xaa; 20], vec![0x01; 32])),
            77,
        )
        .unwrap();
    let block = chain.get_block_by_number(1).unwrap();
    let header = block.rich_header();
    assert_eq!(header.number, 1);
    assert_eq!(header.timestamp, 77);
    assert_eq!(&header.hash, block.hash());
    assert_eq!(header.gas_limit, BLOCK_GAS_LIMIT);
    assert_eq!(header.parent_hash, vec![0u8; 32]);
    let with_hashes = block.rich_block(false);
    match with_hashes.transactions {
        oasis_chain::blockchain::BlockTransactions::Hashes(hs) => {
            assert_eq!(hs, vec![tx_hash.clone()]);
        },
        _ => panic!("hashes were requested"),
    }
    let with_txs = block.rich_block(true);
    match with_txs.transactions {
        oasis_chain::blockchain::BlockTransactions::Full(txs) => {
            assert_eq!(txs.len(), 1);
            assert_eq!(txs[0].hash, tx_hash);
        },
        _ => panic!("full transactions were requested"),
    }
}

#[test]
fn utility_helpers_compute_exact_values() {
    assert_eq!(gwei_to_wei(1), 1_000_000_000);
    assert_eq!(gwei_to_wei(2), 2_000_000_000);
    assert_eq!(gwei_to_wei(u64::MAX as u64), (u64::MAX as u128) * 1_000_000_000);
    assert_eq!(MIN_GAS_PRICE_WEI as u128, gwei_to_wei(MIN_GAS_PRICE_GWEI));
    assert!(matches!(block_number_to_id(BlockNumber::Num(5)), BlockId::Number(5)));
    assert!(matches!(block_number_to_id(BlockNumber::Earliest), BlockId::Earliest));
    assert!(matches!(block_number_to_id(BlockNumber::Latest), BlockId::Latest));
    // Pending resolves to the latest block: there is no pending pool.
    assert!(matches!(block_number_to_id(BlockNumber::Pending), BlockId::Latest));
    let e = jsonrpc_error("boom".to_string());
    assert_eq!(e.code, -32603);
    assert_eq!(e.message, "boom");
    assert!(e.data.is_none());
    let e = execution_error("cause".to_string());
    assert_eq!(e.code, -32015);
    assert_eq!(e.data.as_deref(), Some("cause"));
    let now = get_timestamp();
    assert!(now > 1_500_000_000);
}

#[test]
fn unsubscribing_one_leaves_other_subscriptions_intact() {
    let mut chain = Blockchain::new(gwei_to_wei(1), MockClient::new());
    let addr_a = vec![0xaa; 20];
    let addr_b = vec![0xbb; 20];
    let mut client = EthPubSubClient::new();
    let filter_for = |addr: Vec<u8>| Filter {
        from_block: 0,
        to_block: u64::MAX,
        addresses: vec![addr],
        topics: Vec::new(),
    };
    let sub_a = client
        .subscribe(SubscriptionKind::Logs, Some(SubscriptionParams::Logs(filter_for(addr_a.clone()))))
        .unwrap();
    let sub_b = client
        .subscribe(SubscriptionKind::Logs, Some(SubscriptionParams::Logs(filter_for(addr_b.clone()))))
        .unwrap();
    // Drop the first subscription; the second keeps its filter.
    assert!(client.unsubscribe(sub_a));
    let raw = signed_transfer(0, [0x11; 20], &[1u8; 32]);
    chain.submit_transaction(&raw, Ok(outcome_with_log(addr_b.clone(), vec![0x03; 32])), 1).unwrap();
    let notes = client.handler().notify_logs(&chain, 1, 1);
    assert_eq!(notes.len(), 1);
    assert_eq!(notes[0].0, sub_b);
    assert_eq!(notes[0].1.entry.address, addr_b);
    // The dropped subscriber receives nothing for a matching log either.
    let raw2 = signed_transfer(1, [0x11; 20], &[1u8; 32]);
    chain.submit_transaction(&raw2, Ok(outcome_with_log(addr_a.clone(), vec![0x03; 32])), 2).unwrap();
    let notes = client.handler().notify_logs(&chain, 2, 2);
    assert!(notes.iter().all(|(id, _)| *id != sub_a));
}
