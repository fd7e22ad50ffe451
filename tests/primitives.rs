use btclib::crypto::{PrivateKey, PublicKey, Signature};
use btclib::types::MerkleRoot;
use btclib::miner::{on_reply, tick_request, MinerUpdate, Pending};
use btclib::network::{decode_frame, encode_frame, Message};
use btclib::types::{Block, BlockHeader, Transaction, TransactionOutput};
use btclib::u256::Uint256;
use btclib::wallet::{balance, big_mode_btc, calculate_fee, compose_transaction, sats_to_btc, FeeConfig, FeeType, WalletError};

fn keys() -> (PrivateKey, PublicKey) {
    let sk = PrivateKey::new_key();
    let pk = sk.public_key().expect("a fresh key is valid");
    (sk, pk)
}

fn coinbase(pk: PublicKey, value: u64, id: u128) -> Transaction {
    Transaction::new(vec![], vec![TransactionOutput { value, unique_id: id, public_key: pk }])
}

#[test]
fn sha256_of_nothing() {
    let h = btclib::hash::Hash::hash(&vec![]);
    let expected = Uint256 {
        w3: 0xe3b0c44298fc1c14,
        w2: 0x9afbf4c8996fb924,
        w1: 0x27ae41e4649b934c,
        w0: 0xa495991b7852b855,
    };
    assert_eq!(h.0, expected);
}

#[test]
fn hash_bytes_are_little_endian() {
    let h = btclib::hash::Hash(Uint256 { w0: 0x0102030405060708, w1: 0, w2: 0, w3: 0xff });
    let b = h.as_bytes();
    assert_eq!(b.len(), 32);
    assert_eq!(&b[0..8], &[8, 7, 6, 5, 4, 3, 2, 1]);
    assert_eq!(b[24], 0xff);
    assert!(h.matches_target(&Uint256 { w0: 0, w1: 0, w2: 0, w3: 0x100 }));
    assert!(!h.matches_target(&Uint256 { w0: 0, w1: 0, w2: 0, w3: 0xff }));
}

#[test]
fn equal_outputs_with_distinct_ids_hash_apart() {
    let (_, pk) = keys();
    let a = TransactionOutput { value: 5, unique_id: 1, public_key: pk };
    let b = TransactionOutput { value: 5, unique_id: 2, public_key: pk };
    assert_ne!(a.hash(), b.hash());
    assert_eq!(a.hash(), a.hash());
}

#[test]
fn sign_then_verify() {
    let (sk, pk) = keys();
    let h = btclib::hash::Hash(Uint256 { w0: 42, w1: 7, w2: 0, w3: 9 });
    let sig = Signature::sign_output(&h, &sk).expect("a fresh key signs");
    assert!(sig.verify(&h, &pk));
    let tampered = btclib::hash::Hash(Uint256 { w0: 43, w1: 7, w2: 0, w3: 9 });
    assert!(!sig.verify(&tampered, &pk));
    let (_, other) = keys();
    assert!(!sig.verify(&h, &other));
}

#[test]
fn invalid_secret_is_refused() {
    let zero = PrivateKey { scalar: Uint256::zero() };
    assert!(zero.public_key().is_none());
    let h = btclib::hash::Hash::zero();
    assert!(Signature::sign_output(&h, &zero).is_none());
}

#[test]
fn public_key_sec1_round_trip() {
    let (_, pk) = keys();
    let bytes = pk.to_sec1();
    assert_eq!(bytes.len(), 33);
    assert!(bytes[0] == 2 || bytes[0] == 3);
    assert_eq!(PublicKey::from_sec1(&bytes), Some(pk));
    assert_eq!(PublicKey::from_sec1(&vec![2, 3]), None);
}

#[test]
fn merkle_root_of_one_is_its_hash() {
    let (_, pk) = keys();
    let t = coinbase(pk, 1, 1);
    assert_eq!(MerkleRoot::calculate(&vec![t.copy()]), MerkleRoot(t.hash()));
}

#[test]
fn merkle_root_ignores_repeated_last_of_odd_list() {
    let (_, pk) = keys();
    let l = vec![coinbase(pk, 1, 1), coinbase(pk, 2, 2), coinbase(pk, 3, 3)];
    let mut l2: Vec<Transaction> = l.iter().map(|t| t.copy()).collect();
    l2.push(coinbase(pk, 3, 3));
    assert_eq!(MerkleRoot::calculate(&l), MerkleRoot::calculate(&l2));
    let even = vec![coinbase(pk, 1, 1), coinbase(pk, 2, 2)];
    let mut even2: Vec<Transaction> = even.iter().map(|t| t.copy()).collect();
    even2.push(coinbase(pk, 2, 2));
    assert_ne!(MerkleRoot::calculate(&even), MerkleRoot::calculate(&even2));
}

#[test]
fn merkle_root_of_nothing_is_zero() {
    assert_eq!(MerkleRoot::calculate(&vec![]), MerkleRoot(btclib::hash::Hash::zero()));
}

#[test]
fn merkle_root_of_two_pairs_them() {
    let (_, pk) = keys();
    let a = coinbase(pk, 1, 1);
    let b = coinbase(pk, 2, 2);
    let r = MerkleRoot::calculate(&vec![a.copy(), b.copy()]);
    assert_ne!(r, MerkleRoot(a.hash()));
    assert_ne!(r, MerkleRoot(b.hash()));
}

#[test]
fn frames_round_trip() {
    let payloads: Vec<Vec<u8>> = vec![vec![], vec![1, 2, 3], vec![9; 300]];
    let mut stream: Vec<u8> = vec![];
    for p in &payloads {
        stream.extend(encode_frame(p));
    }
    let mut rest = stream;
    for p in &payloads {
        let (payload, used) = decode_frame(&rest).expect("a whole frame");
        assert_eq!(&payload, p);
        rest = rest[used..].to_vec();
    }
    assert!(rest.is_empty());
}

#[test]
fn frame_prefix_is_big_endian_length() {
    let f = encode_frame(&vec![7; 258]);
    assert_eq!(&f[0..8], &[0, 0, 0, 0, 0, 0, 1, 2]);
    assert_eq!(f.len(), 266);
    assert_eq!(decode_frame(&f[0..100].to_vec()), None);
    assert_eq!(decode_frame(&vec![0, 0, 0]), None);
}

#[test]
fn coins_as_text() {
    assert_eq!(sats_to_btc(150_000_000), "1.5 BTC");
    assert_eq!(sats_to_btc(100_000_000), "1 BTC");
    assert_eq!(sats_to_btc(0), "0 BTC");
    assert_eq!(sats_to_btc(1), "0.00000001 BTC");
    assert_eq!(sats_to_btc(5_000_000_000), "50 BTC");
    assert_eq!(sats_to_btc(123_456_789), "1.23456789 BTC");
}

#[test]
fn balance_counts_reserved_outputs() {
    let (_, pk) = keys();
    let a = TransactionOutput { value: 5, unique_id: 1, public_key: pk };
    let b = TransactionOutput { value: 7, unique_id: 2, public_key: pk };
    assert_eq!(balance(&vec![(a, false), (b, true)]), 12);
    assert_eq!(balance(&vec![]), 0);
}

#[test]
fn mining_finds_an_easy_target() {
    let easy = Uint256 { w0: u64::MAX, w1: u64::MAX, w2: u64::MAX, w3: u64::MAX };
    let mut h = BlockHeader::new(0, 5, btclib::hash::Hash::zero(), MerkleRoot(btclib::hash::Hash::zero()), easy);
    assert!(h.mine(3));
    assert_eq!(h.nonce, 6);
    assert!(h.timestamp > 0);
    let mut hard = BlockHeader::new(0, 5, btclib::hash::Hash::zero(), MerkleRoot(btclib::hash::Hash::zero()), Uint256::zero());
    assert!(!hard.mine(4));
    assert_eq!(hard.nonce, 9);
}

#[test]
fn miner_controller_decisions() {
    let (_, pk) = keys();
    match tick_request(false, &None, pk) {
        Some((Message::FetchTemplate(k), Pending::Template)) => assert_eq!(k, pk),
        _ => panic!("expected a template request"),
    }
    assert!(tick_request(true, &None, pk).is_none());
    let block = Block::new(
        BlockHeader::new(1, 0, btclib::hash::Hash::zero(), MerkleRoot(btclib::hash::Hash::zero()), Uint256::zero()),
        vec![],
    );
    let h = block.hash();
    match tick_request(true, &Some(block.copy()), pk) {
        Some((Message::ValidateTemplate(b), Pending::Validity)) => assert_eq!(b.hash(), h),
        _ => panic!("expected a validity request"),
    }
    assert!(matches!(on_reply(Pending::Template, Message::Template(block)), MinerUpdate::Install(_)));
    assert!(matches!(on_reply(Pending::Validity, Message::TemplateValidity(false)), MinerUpdate::StopMining));
    assert!(matches!(on_reply(Pending::Validity, Message::TemplateValidity(true)), MinerUpdate::KeepMining));
    assert!(matches!(on_reply(Pending::Template, Message::TemplateValidity(true)), MinerUpdate::Fail));
}

#[test]
fn fees_by_rule() {
    let fixed = FeeConfig { fee_type: FeeType::Fixed, value: 250 };
    assert_eq!(calculate_fee(&fixed, 1_000_000), 250);
    let percent = FeeConfig { fee_type: FeeType::Percent, value: 10 };
    assert_eq!(calculate_fee(&percent, 1_000_000), 1_000);
    let huge = FeeConfig { fee_type: FeeType::Percent, value: u64::MAX };
    assert_eq!(calculate_fee(&huge, u64::MAX), u64::MAX);
}

#[test]
fn compose_spends_first_unreserved_outputs() {
    let (sk, pk) = keys();
    let (_, bob) = keys();
    let a = TransactionOutput { value: 30, unique_id: 1, public_key: pk };
    let b = TransactionOutput { value: 50, unique_id: 2, public_key: pk };
    let c = TransactionOutput { value: 40, unique_id: 3, public_key: pk };
    let d = TransactionOutput { value: 90, unique_id: 4, public_key: pk };
    let utxos = vec![(a, false), (b, true), (c, false), (d, false)];
    let t = compose_transaction(&utxos, &sk, pk, bob, 60, 5, 10, 11).expect("funds suffice");
    assert_eq!(t.inputs.len(), 2);
    assert_eq!(t.inputs[0].prev_transaction_output_hash, a.hash());
    assert_eq!(t.inputs[1].prev_transaction_output_hash, c.hash());
    assert!(t.inputs[0].signature.verify(&a.hash(), &pk));
    assert!(t.inputs[1].signature.verify(&c.hash(), &pk));
    assert_eq!(t.outputs.len(), 2);
    assert_eq!(t.outputs[0], TransactionOutput { value: 60, unique_id: 10, public_key: bob });
    assert_eq!(t.outputs[1], TransactionOutput { value: 5, unique_id: 11, public_key: pk });
    let exact = compose_transaction(&utxos, &sk, pk, bob, 65, 5, 10, 11).expect("funds suffice");
    assert_eq!(exact.outputs.len(), 1);
    let short = compose_transaction(&utxos, &sk, pk, bob, 200, 0, 10, 11);
    assert!(matches!(short, Err(WalletError::InsufficientFunds)));
}

#[test]
fn public_key_pem_round_trip() {
    let (_, pk) = keys();
    let pem = pk.to_pem().expect("a curve point");
    assert!(pem.starts_with("-----BEGIN PUBLIC KEY-----"));
    assert_eq!(PublicKey::from_pem(&pem), Some(pk));
    assert_eq!(PublicKey::from_pem(&"not a key".to_string()), None);
    let off_curve = PublicKey { prefix: 7, x: Uint256::zero() };
    assert!(off_curve.to_pem().is_none());
}

#[test]
fn balance_drawn_large() {
    let art = big_mode_btc(150_000_000).expect("digits and letters are drawable");
    assert!(art.lines().count() > 1);
    assert_ne!(art, "1.5 BTC");
}

#[test]
fn encoding_uses_shortest_heads() {
    let (_, pk) = keys();
    let small = TransactionOutput { value: 5, unique_id: 1, public_key: pk }.encode();
    assert_eq!(&small[0..2], &[0x83, 0x05]);
    let big = TransactionOutput { value: 1_000, unique_id: 1, public_key: pk }.encode();
    assert_eq!(&big[0..4], &[0x83, 0x19, 0x03, 0xe8]);
    let huge = TransactionOutput { value: u64::MAX, unique_id: 1, public_key: pk }.encode();
    assert_eq!(&huge[0..2], &[0x83, 0x1b]);
}
