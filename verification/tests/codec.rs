//! The transaction codec against an independent encoder, and the byte
//! helpers against exact expected values.
use oasis_chain::blockchain::compute_block_hash;
use oasis_chain::blockchain::compute_create_address;
use oasis_chain::bytes::bytes_eq;
use oasis_chain::bytes::u64_to_dec;
use oasis_chain::bytes::u64_to_min_be;
use oasis_chain::bytes::be_gt_u64;
use oasis_chain::bytes::be_lt_u64;
use oasis_chain::bytes::be_val_u64;
use oasis_chain::crypto::keccak256;
use oasis_chain::tx::decode_transaction;
use oasis_chain::tx::encode_transaction;
use oasis_chain::tx::encode_unsigned;
use oasis_chain::tx::recover_sender;
use oasis_chain::tx::Transaction;
use oasis_chain::tx::TxAction;

fn sample_tx() -> Transaction {
    Transaction {
        nonce: u64_to_min_be(7),
        gas_price: u64_to_min_be(2_000_000_000),
        gas: u64_to_min_be(21000),
        action: TxAction::Call(vec![0x42; 20]),
        value: u64_to_min_be(1_000_000),
        data: vec![1, 2, 3],
        v: 27,
        sig_r: vec![0x10; 32],
        sig_s: vec![0x20; 32],
    }
}

/// Encodes the same nine fields with the independent wire encoder.
fn reference_encoding(t: &Transaction) -> Vec<u8> {
    let mut stream = rlp::RlpStream::new_list(9);
    stream.append(&t.nonce);
    stream.append(&t.gas_price);
    stream.append(&t.gas);
    match &t.action {
        TxAction::Create => stream.append(&Vec::<u8>::new()),
        TxAction::Call(addr) => stream.append(addr),
    };
    stream.append(&t.value);
    stream.append(&t.data);
    stream.append(&u64_to_min_be(t.v));
    stream.append(&t.sig_r);
    stream.append(&t.sig_s);
    stream.out().to_vec()
}

#[test]
fn encoding_matches_the_reference_encoder() {
    let t = sample_tx();
    assert_eq!(encode_transaction(&t), reference_encoding(&t));
    let creation = Transaction { action: TxAction::Create, data: vec![0u8; 100], ..sample_tx() };
    assert_eq!(encode_transaction(&creation), reference_encoding(&creation));
    let empty_fields = Transaction {
        nonce: Vec::new(),
        value: Vec::new(),
        data: Vec::new(),
        ..sample_tx()
    };
    assert_eq!(encode_transaction(&empty_fields), reference_encoding(&empty_fields));
}

#[test]
fn decoding_inverts_encoding() {
    let t = sample_tx();
    let raw = encode_transaction(&t);
    let back = decode_transaction(&raw).expect("the canonical encoding must decode");
    assert_eq!(back.nonce, t.nonce);
    assert_eq!(back.gas_price, t.gas_price);
    assert_eq!(back.gas, t.gas);
    assert!(matches!(&back.action, TxAction::Call(a) if *a == vec![0x42; 20]));
    assert_eq!(back.value, t.value);
    assert_eq!(back.data, t.data);
    assert_eq!(back.v, t.v);
    assert_eq!(back.sig_r, t.sig_r);
    assert_eq!(back.sig_s, t.sig_s);
    // And re-encoding reproduces the input bytes.
    assert_eq!(encode_transaction(&back), raw);
}

#[test]
fn long_payloads_round_trip() {
    let t = Transaction { data: vec![0xab; 3000], ..sample_tx() };
    let raw = encode_transaction(&t);
    assert_eq!(raw, reference_encoding(&t));
    let back = decode_transaction(&raw).expect("long encodings must decode");
    assert_eq!(back.data.len(), 3000);
}

#[test]
fn non_canonical_integers_are_rejected() {
    // A nonce with a leading zero byte: the reference encoder would never
    // produce it, and the decoder must not accept it.
    let mut stream = rlp::RlpStream::new_list(9);
    stream.append(&vec![0x00, 0x07]);
    let t = sample_tx();
    stream.append(&t.gas_price);
    stream.append(&t.gas);
    stream.append(&vec![0x42u8; 20]);
    stream.append(&t.value);
    stream.append(&t.data);
    stream.append(&u64_to_min_be(t.v));
    stream.append(&t.sig_r);
    stream.append(&t.sig_s);
    let raw = stream.out().to_vec();
    assert!(decode_transaction(&raw).is_none());
}

#[test]
fn malformed_structures_are_rejected() {
    assert!(decode_transaction(&Vec::new()).is_none());
    assert!(decode_transaction(&vec![0x80]).is_none());
    // A list of eight items only.
    let mut stream = rlp::RlpStream::new_list(8);
    for _ in 0..8 {
        stream.append(&vec![1u8]);
    }
    assert!(decode_transaction(&stream.out().to_vec()).is_none());
    // Trailing garbage after a well-formed transaction.
    let mut raw = encode_transaction(&sample_tx());
    raw.push(0x00);
    assert!(decode_transaction(&raw).is_none());
    // A recipient of the wrong width.
    let mut stream = rlp::RlpStream::new_list(9);
    let t = sample_tx();
    stream.append(&t.nonce);
    stream.append(&t.gas_price);
    stream.append(&t.gas);
    stream.append(&vec![0x42u8; 19]);
    stream.append(&t.value);
    stream.append(&t.data);
    stream.append(&u64_to_min_be(t.v));
    stream.append(&t.sig_r);
    stream.append(&t.sig_s);
    assert!(decode_transaction(&stream.out().to_vec()).is_none());
}

#[test]
fn recovered_sender_matches_the_signing_key() {
    let sk = [5u8; 32];
    let mut t = sample_tx();
    let preimage = encode_unsigned(&t, None);
    let digest = keccak256(&preimage);
    let mut d32 = [0u8; 32];
    d32.copy_from_slice(&digest);
    let secret = libsecp256k1::SecretKey::parse(&sk).unwrap();
    let (sig, recid) = libsecp256k1::sign(&libsecp256k1::Message::parse(&d32), &secret);
    let ser = sig.serialize();
    let strip = |b: &[u8]| -> Vec<u8> {
        let mut i = 0;
        while i < b.len() && b[i] == 0 {
            i += 1;
        }
        b[i..].to_vec()
    };
    t.sig_r = strip(&ser[0..32]);
    t.sig_s = strip(&ser[32..64]);
    t.v = 27 + recid.serialize() as u64;
    let sender = recover_sender(&t).expect("a fresh signature must recover");
    // The sender is the trailing twenty bytes of the hash of the public key.
    let public = libsecp256k1::PublicKey::from_secret_key(&secret);
    let expected = keccak256(&public.serialize()[1..65].to_vec())[12..32].to_vec();
    assert_eq!(sender, expected);
    // A chain-marked signature over the same fields recovers too.
    let chain_id = 42u64;
    let preimage2 = encode_unsigned(&t, Some(chain_id));
    let digest2 = keccak256(&preimage2);
    let mut e32 = [0u8; 32];
    e32.copy_from_slice(&digest2);
    let (sig2, recid2) = libsecp256k1::sign(&libsecp256k1::Message::parse(&e32), &secret);
    let ser2 = sig2.serialize();
    t.sig_r = strip(&ser2[0..32]);
    t.sig_s = strip(&ser2[32..64]);
    t.v = 35 + 2 * chain_id + recid2.serialize() as u64;
    let sender2 = recover_sender(&t).expect("a chain-marked signature must recover");
    assert_eq!(sender2, expected);
}

#[test]
fn big_endian_helpers_compute_exact_values() {
    assert_eq!(u64_to_min_be(0), Vec::<u8>::new());
    assert_eq!(u64_to_min_be(1), vec![1]);
    assert_eq!(u64_to_min_be(256), vec![1, 0]);
    assert_eq!(u64_to_min_be(16_000_000), vec![0xf4, 0x24, 0x00]);
    assert_eq!(be_val_u64(&vec![0xf4, 0x24, 0x00]), 16_000_000);
    assert!(be_gt_u64(&vec![1, 0, 0, 0, 0, 0, 0, 0, 0], 100));
    assert!(!be_lt_u64(&vec![1, 0, 0, 0, 0, 0, 0, 0, 0], 100));
    assert!(be_lt_u64(&Vec::new(), 1));
    assert!(bytes_eq(&vec![1, 2], &vec![1, 2]));
    assert!(!bytes_eq(&vec![1, 2], &vec![1, 3]));
}

#[test]
fn decimal_rendering_matches_ascii() {
    assert_eq!(u64_to_dec(0), b"0".to_vec());
    assert_eq!(u64_to_dec(105), b"105".to_vec());
    assert_eq!(u64_to_dec(16_000_000), b"16000000".to_vec());
}

#[test]
fn block_hashes_derive_from_the_decimal_number() {
    let h1 = compute_block_hash(1);
    let independent = keccak_hash::keccak("1".as_bytes());
    assert_eq!(h1, independent.0.to_vec());
    let h0 = compute_block_hash(0);
    assert_eq!(h0, keccak_hash::keccak("0".as_bytes()).0.to_vec());
    assert_ne!(h0, h1);
}

#[test]
fn create_addresses_hash_sender_and_nonce() {
    let sender = vec![0x33u8; 20];
    let nonce = u64_to_min_be(7);
    let addr = compute_create_address(&sender, &nonce);
    // Independent derivation: the trailing twenty bytes of the hash of the
    // two-item list holding sender and nonce.
    let mut stream = rlp::RlpStream::new_list(2);
    stream.append(&sender);
    stream.append(&nonce);
    let digest = keccak_hash::keccak(stream.out().to_vec());
    assert_eq!(addr, digest.0[12..32].to_vec());
}
