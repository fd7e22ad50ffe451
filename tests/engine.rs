use btclib::chain::Blockchain;
use btclib::crypto::{PrivateKey, PublicKey, Signature};
use btclib::error::BtcError;
use btclib::node::{handle_message, longest_chain_peer, Action};
use btclib::network::Message;
use btclib::rules::block_reward;
use btclib::types::{Block, BlockHeader, MerkleRoot, Transaction, TransactionInput, TransactionOutput};
use btclib::u256::Uint256;

fn keys() -> (PrivateKey, PublicKey) {
    let sk = PrivateKey::new_key();
    let pk = sk.public_key().expect("a fresh key is valid");
    (sk, pk)
}

fn easiest() -> Uint256 {
    Uint256 { w0: u64::MAX, w1: u64::MAX, w2: u64::MAX, w3: u64::MAX }
}

fn coinbase(pk: PublicKey, value: u64, id: u128) -> Transaction {
    Transaction::new(vec![], vec![TransactionOutput { value, unique_id: id, public_key: pk }])
}

fn block_after(chain: &Blockchain, txs: Vec<Transaction>, timestamp: u64, target: Uint256) -> Block {
    let merkle_root = MerkleRoot::calculate(&txs);
    Block::new(BlockHeader::new(timestamp, 0, chain.tip_hash(), merkle_root, target), txs)
}

/// A chain of one block whose coinbase pays the full reward to `pk`.
fn genesis_chain(pk: PublicKey) -> Blockchain {
    let mut chain = Blockchain::new();
    let block = block_after(&chain, vec![coinbase(pk, 50 * 100_000_000, 1)], 1_000, easiest());
    assert_eq!(chain.add_block(block), Ok(()));
    chain
}

fn spend(sk: &PrivateKey, prev: &TransactionOutput, to: PublicKey, value: u64, id: u128) -> Transaction {
    let h = prev.hash();
    let signature = Signature::sign_output(&h, sk).expect("a fresh key signs");
    Transaction::new(
        vec![TransactionInput { prev_transaction_output_hash: h, signature }],
        vec![TransactionOutput { value, unique_id: id, public_key: to }],
    )
}

fn extend(chain: &mut Blockchain, pk: PublicKey, timestamp: u64, id: u128) {
    let reward = chain.calculate_block_reward();
    let block = block_after(chain, vec![coinbase(pk, reward, id)], timestamp, easiest());
    assert_eq!(chain.add_block(block), Ok(()));
}

#[test]
fn genesis_only() {
    let (_, pk) = keys();
    let mut chain = Blockchain::new();
    let txs = vec![coinbase(pk, 50 * 100_000_000, 7)];
    let merkle_root = MerkleRoot::calculate(&txs);
    let mut header = BlockHeader::new(1_000, 0, btclib::hash::Hash::zero(), merkle_root, easiest());
    let _ = header.mine(1);
    let block = Block::new(header, txs);
    assert_eq!(chain.add_block(block), Ok(()));
    assert_eq!(chain.utxos().len(), 1);
    assert_eq!(chain.block_height(), 1);
}

#[test]
fn replay_utxos() {
    let (_, pk) = keys();
    let mut chain = genesis_chain(pk);
    let inline: Vec<_> = chain.utxos().entries().clone();
    chain.rebuild_utxos();
    assert_eq!(chain.utxos().entries(), &inline);
}

#[test]
fn double_spend_rejected_unless_outbid() {
    let (sk, pk) = keys();
    let (_, bob) = keys();
    let (_, carol) = keys();
    let mut chain = genesis_chain(pk);
    let prev = chain.blocks()[0].transactions[0].outputs[0];
    let first = spend(&sk, &prev, bob, 50 * 100_000_000 - 1_000, 10);
    assert_eq!(chain.add_to_mempool(first, 2_000), Ok(()));
    let cheaper = spend(&sk, &prev, carol, 50 * 100_000_000 - 1_000, 11);
    assert_eq!(chain.add_to_mempool(cheaper, 2_001), Err(BtcError::InvalidTransaction));
    assert_eq!(chain.mempool().len(), 1);
    let richer = spend(&sk, &prev, carol, 50 * 100_000_000 - 5_000, 12);
    let richer_hash = richer.hash();
    assert_eq!(chain.add_to_mempool(richer, 2_002), Ok(()));
    assert_eq!(chain.mempool().len(), 1);
    assert_eq!(chain.mempool()[0].transaction.hash(), richer_hash);
    assert_eq!(chain.mempool()[0].fee, 5_000);
    assert_eq!(chain.utxos().get(&prev.hash()).map(|e| e.0), Some(true));
}

#[test]
fn stale_template_after_new_block() {
    let (_, pk) = keys();
    let mut chain = genesis_chain(pk);
    let template = match handle_message(&mut chain, Message::FetchTemplate(pk), 2_000, 99) {
        Action::Reply(Message::Template(b)) => b,
        _ => panic!("expected a template"),
    };
    assert_eq!(template.header.nonce, 0);
    assert_eq!(template.transactions[0].outputs[0].value, 50 * 100_000_000);
    match handle_message(&mut chain, Message::ValidateTemplate(template.copy()), 2_000, 1) {
        Action::Reply(Message::TemplateValidity(v)) => assert!(v),
        _ => panic!("expected a verdict"),
    }
    extend(&mut chain, pk, 3_000, 5);
    match handle_message(&mut chain, Message::ValidateTemplate(template), 3_001, 1) {
        Action::Reply(Message::TemplateValidity(v)) => assert!(!v),
        _ => panic!("expected a verdict"),
    }
}

#[test]
fn difficulty_drops_to_a_quarter() {
    let (_, pk) = keys();
    let mut chain = Blockchain::new();
    for i in 0..50u64 {
        extend(&mut chain, pk, 1_000 + i, 100 + i as u128);
    }
    assert_eq!(chain.block_height(), 50);
    let quarter = Uint256 { w0: u64::MAX, w1: u64::MAX, w2: u64::MAX, w3: 0x3FFF };
    assert_eq!(chain.target(), quarter);
}

#[test]
fn slow_window_raises_target_up_to_the_ceiling() {
    let (_, pk) = keys();
    let mut chain = Blockchain::new();
    for i in 0..50u64 {
        extend(&mut chain, pk, 1_000 + i, 100 + i as u128);
    }
    for i in 0..50u64 {
        extend(&mut chain, pk, 10_000 + 100 * i, 200 + i as u128);
    }
    let four_quarters = Uint256 { w0: u64::MAX - 3, w1: u64::MAX, w2: u64::MAX, w3: 0xFFFF };
    assert_eq!(chain.target(), four_quarters);
}

#[test]
fn longest_chain_bootstrap() {
    let (_, pk) = keys();
    let mut b = Blockchain::new();
    for i in 0..7u64 {
        extend(&mut b, pk, 1_000 + i, i as u128);
    }
    assert_eq!(longest_chain_peer(&vec![4, 7]), Some((1, 7)));
    assert_eq!(longest_chain_peer(&vec![0, -3]), None);
    let mut c = Blockchain::new();
    for h in 0..7usize {
        match handle_message(&mut b, Message::FetchBlock(h), 0, 0) {
            Action::Reply(Message::NewBlock(block)) => assert_eq!(c.add_block(block), Ok(())),
            _ => panic!("expected a block"),
        }
    }
    c.rebuild_utxos();
    c.try_adjust_target();
    assert_eq!(c.block_height(), 7);
    assert_eq!(c.utxos().len(), 7);
}

#[test]
fn admitted_then_expired() {
    let (sk, pk) = keys();
    let (_, bob) = keys();
    let mut chain = genesis_chain(pk);
    let prev = chain.blocks()[0].transactions[0].outputs[0];
    let t = spend(&sk, &prev, bob, 1_000, 3);
    assert_eq!(chain.add_to_mempool(t, 5_000), Ok(()));
    assert_eq!(chain.utxos().get(&prev.hash()).map(|e| e.0), Some(true));
    chain.cleanup_mempool(5_000 + 600);
    assert_eq!(chain.mempool().len(), 1);
    chain.cleanup_mempool(5_000 + 601);
    assert_eq!(chain.mempool().len(), 0);
    assert_eq!(chain.utxos().get(&prev.hash()).map(|e| e.0), Some(false));
}

#[test]
fn spending_block_moves_outputs() {
    let (sk, pk) = keys();
    let (_, bob) = keys();
    let mut chain = genesis_chain(pk);
    let prev = chain.blocks()[0].transactions[0].outputs[0];
    let t = spend(&sk, &prev, bob, 40 * 100_000_000, 3);
    let fee = 10 * 100_000_000;
    assert_eq!(chain.add_to_mempool(t.copy(), 1_500), Ok(()));
    let reward = chain.calculate_block_reward();
    let block = block_after(&chain, vec![coinbase(pk, reward + fee, 4), t], 2_000, easiest());
    assert_eq!(chain.add_block(block), Ok(()));
    assert_eq!(chain.mempool().len(), 0);
    assert!(!chain.utxos().contains(&prev.hash()));
    assert_eq!(chain.utxos().len(), 2);
}

#[test]
fn wrong_coinbase_amount_is_invalid_block() {
    let (_, pk) = keys();
    let mut chain = genesis_chain(pk);
    let block = block_after(&chain, vec![coinbase(pk, 1, 4)], 2_000, easiest());
    assert_eq!(chain.add_block(block), Err(BtcError::InvalidBlock));
    assert_eq!(chain.block_height(), 1);
}

#[test]
fn wrong_predecessor_is_invalid_block() {
    let (_, pk) = keys();
    let mut chain = Blockchain::new();
    let txs = vec![coinbase(pk, 50 * 100_000_000, 1)];
    let merkle_root = MerkleRoot::calculate(&txs);
    let h = btclib::hash::Hash(Uint256::from_u64(1));
    let block = Block::new(BlockHeader::new(1, 0, h, merkle_root, easiest()), txs);
    assert_eq!(chain.add_block(block), Err(BtcError::InvalidBlock));
    assert_eq!(chain.block_height(), 0);
}

#[test]
fn wrong_merkle_root_is_reported() {
    let (_, pk) = keys();
    let mut chain = genesis_chain(pk);
    let txs = vec![coinbase(pk, 50 * 100_000_000, 9)];
    let wrong = MerkleRoot(btclib::hash::Hash::zero());
    let block = Block::new(BlockHeader::new(2_000, 0, chain.tip_hash(), wrong, easiest()), txs);
    assert_eq!(chain.add_block(block), Err(BtcError::InvalidMerkleRoot));
}

#[test]
fn late_timestamp_and_missed_target_are_invalid() {
    let (_, pk) = keys();
    let mut chain = genesis_chain(pk);
    let early = block_after(&chain, vec![coinbase(pk, 50 * 100_000_000, 9)], 1_000, easiest());
    assert_eq!(chain.add_block(early), Err(BtcError::InvalidBlock));
    let hard = block_after(&chain, vec![coinbase(pk, 50 * 100_000_000, 9)], 2_000, Uint256::zero());
    assert_eq!(chain.add_block(hard), Err(BtcError::InvalidBlock));
}

#[test]
fn coinbase_is_refused_by_the_mempool() {
    let (_, pk) = keys();
    let mut chain = genesis_chain(pk);
    assert_eq!(chain.add_to_mempool(coinbase(pk, 5, 5), 10), Err(BtcError::InvalidTransaction));
}

#[test]
fn bad_signature_is_reported() {
    let (_, pk) = keys();
    let (other, _) = keys();
    let (_, bob) = keys();
    let mut chain = genesis_chain(pk);
    let prev = chain.blocks()[0].transactions[0].outputs[0];
    let forged = spend(&other, &prev, bob, 10, 3);
    assert_eq!(chain.add_to_mempool(forged, 10), Err(BtcError::InvalidSignature));
}

#[test]
fn overspending_is_refused() {
    let (sk, pk) = keys();
    let (_, bob) = keys();
    let mut chain = genesis_chain(pk);
    let prev = chain.blocks()[0].transactions[0].outputs[0];
    let t = spend(&sk, &prev, bob, 50 * 100_000_000 + 1, 3);
    assert_eq!(chain.add_to_mempool(t, 10), Err(BtcError::InvalidTransaction));
    let missing = TransactionOutput { value: 5, unique_id: 77, public_key: pk };
    let t2 = spend(&sk, &missing, bob, 1, 4);
    assert_eq!(chain.add_to_mempool(t2, 10), Err(BtcError::InvalidTransaction));
}

#[test]
fn reward_halves() {
    assert_eq!(block_reward(0), 5_000_000_000);
    assert_eq!(block_reward(209), 5_000_000_000);
    assert_eq!(block_reward(210), 2_500_000_000);
    assert_eq!(block_reward(420), 1_250_000_000);
    assert_eq!(block_reward(210 * 33), 0);
    assert_eq!(block_reward(210 * 64), 0);
}

#[test]
fn miner_fees_of_a_candidate() {
    let (sk, pk) = keys();
    let (_, bob) = keys();
    let chain = genesis_chain(pk);
    let prev = chain.blocks()[0].transactions[0].outputs[0];
    let t = spend(&sk, &prev, bob, 49 * 100_000_000, 3);
    let block = block_after(&chain, vec![coinbase(pk, 0, 1), t], 2_000, easiest());
    assert_eq!(block.calculate_miner_fees(chain.utxos()), Ok(100_000_000));
    let t2 = spend(&sk, &prev, bob, 51 * 100_000_000, 3);
    let bad = block_after(&chain, vec![coinbase(pk, 0, 1), t2], 2_000, easiest());
    assert_eq!(bad.calculate_miner_fees(chain.utxos()), Err(BtcError::InvalidTransaction));
}

#[test]
fn peer_queries() {
    let (_, pk) = keys();
    let mut chain = genesis_chain(pk);
    match handle_message(&mut chain, Message::AskDifference(0), 0, 0) {
        Action::Reply(Message::Difference(d)) => assert_eq!(d, 1),
        _ => panic!("expected a difference"),
    }
    match handle_message(&mut chain, Message::AskDifference(5), 0, 0) {
        Action::Reply(Message::Difference(d)) => assert_eq!(d, -4),
        _ => panic!("expected a difference"),
    }
    assert!(matches!(handle_message(&mut chain, Message::FetchBlock(1), 0, 0), Action::Close));
    match handle_message(&mut chain, Message::FetchUTXOs(pk), 0, 0) {
        Action::Reply(Message::UTXOs(v)) => {
            assert_eq!(v.len(), 1);
            assert_eq!(v[0].0.value, 50 * 100_000_000);
            assert!(!v[0].1);
        }
        _ => panic!("expected outputs"),
    }
    assert!(matches!(handle_message(&mut chain, Message::TemplateValidity(true), 0, 0), Action::Close));
    match handle_message(&mut chain, Message::DiscoverNodes("a:1".to_string(), "b:2".to_string()), 0, 0) {
        Action::ConnectBack(addr) => assert_eq!(addr, "a:1"),
        _ => panic!("expected a reverse connection"),
    }
}

#[test]
fn submitted_template_is_broadcast() {
    let (_, pk) = keys();
    let mut chain = genesis_chain(pk);
    let reward = chain.calculate_block_reward();
    let block = block_after(&chain, vec![coinbase(pk, reward, 8)], 2_000, easiest());
    let h = block.hash();
    match handle_message(&mut chain, Message::SubmitTemplate(block, pk), 0, 0) {
        Action::Broadcast(Message::NewBlock(b)) => assert_eq!(b.hash(), h),
        _ => panic!("expected a broadcast"),
    }
    assert_eq!(chain.block_height(), 2);
}

#[test]
fn first_block_must_meet_its_target_and_root() {
    let (_, pk) = keys();
    let mut chain = Blockchain::new();
    let hard = block_after(&chain, vec![coinbase(pk, 50 * 100_000_000, 1)], 1_000, Uint256::zero());
    assert_eq!(chain.add_block(hard), Err(BtcError::InvalidBlock));
    let txs = vec![coinbase(pk, 50 * 100_000_000, 1)];
    let wrong = MerkleRoot(btclib::hash::Hash::zero());
    let block = Block::new(BlockHeader::new(1_000, 0, btclib::hash::Hash::zero(), wrong, easiest()), txs);
    assert_eq!(chain.add_block(block), Err(BtcError::InvalidMerkleRoot));
    assert_eq!(chain.block_height(), 0);
}

#[test]
fn cleanup_keeps_reservations_of_kept_entries() {
    let (sk, pk) = keys();
    let (_, bob) = keys();
    let mut chain = Blockchain::new();
    let cb = Transaction::new(
        vec![],
        vec![
            TransactionOutput { value: 30 * 100_000_000, unique_id: 1, public_key: pk },
            TransactionOutput { value: 20 * 100_000_000, unique_id: 2, public_key: pk },
        ],
    );
    let block = block_after(&chain, vec![cb], 1_000, easiest());
    assert_eq!(chain.add_block(block), Ok(()));
    let o1 = chain.blocks()[0].transactions[0].outputs[0];
    let o2 = chain.blocks()[0].transactions[0].outputs[1];
    assert_eq!(chain.add_to_mempool(spend(&sk, &o1, bob, 1_000, 3), 1_000), Ok(()));
    assert_eq!(chain.add_to_mempool(spend(&sk, &o2, bob, 1_000, 4), 1_700), Ok(()));
    chain.cleanup_mempool(1_700);
    assert_eq!(chain.mempool().len(), 1);
    assert_eq!(chain.utxos().get(&o1.hash()).map(|e| e.0), Some(false));
    assert_eq!(chain.utxos().get(&o2.hash()).map(|e| e.0), Some(true));
}

#[test]
fn reservations_follow_the_mempool_after_a_block() {
    let (sk, pk) = keys();
    let (_, bob) = keys();
    let mut chain = genesis_chain(pk);
    let prev = chain.blocks()[0].transactions[0].outputs[0];
    let t = spend(&sk, &prev, bob, 1_000, 3);
    assert_eq!(chain.add_to_mempool(t, 1_500), Ok(()));
    extend(&mut chain, pk, 2_000, 9);
    assert_eq!(chain.mempool().len(), 1);
    assert_eq!(chain.utxos().get(&prev.hash()).map(|e| e.0), Some(true));
    assert_eq!(chain.utxos().len(), 2);
}
