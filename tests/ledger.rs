use minichain::block::{hash_meets_difficulty, Block, Transfer};
use minichain::ledger::{Blockchain, MINING_REWARD};

fn transfer(sender: &str, receiver: &str, amount: i64) -> Transfer {
    Transfer { sender: sender.to_string(), receiver: receiver.to_string(), amount }
}

const T0: u64 = 1_700_000_000_000;

fn fresh() -> Blockchain {
    Blockchain::new(T0).expect("genesis is sealed")
}

#[test]
fn scenario_two_transfers_and_reward() {
    let mut coin = fresh();
    coin.create_transaction("Saad".to_string(), "Y".to_string(), 50);
    coin.create_transaction("Y".to_string(), "X".to_string(), 10);
    coin.mine_pending_transactions("Saad-Miner-Wallet".to_string(), T0 + 1).unwrap();
    assert_eq!(coin.get_balance_of("Saad"), -50);
    assert_eq!(coin.get_balance_of("Y"), 40);
    assert_eq!(coin.get_balance_of("X"), 10);
    assert_eq!(coin.get_balance_of("Saad-Miner-Wallet"), 100);
    assert_eq!(coin.get_balance_of("System"), -100);
    assert_eq!(coin.chain().len(), 2);
}

#[test]
fn small_transfer_and_reward() {
    let mut coin = fresh();
    assert_eq!(coin.get_balance_of("A"), 0);
    coin.create_transaction("A".to_string(), "B".to_string(), 5);
    coin.mine_pending_transactions("M".to_string(), T0 + 7).unwrap();
    assert_eq!(coin.get_balance_of("A"), -5);
    assert_eq!(coin.get_balance_of("B"), 5);
    assert_eq!(coin.get_balance_of("M"), 100);
}

#[test]
fn genesis_block_shape() {
    let coin = fresh();
    assert_eq!(coin.chain().len(), 1);
    let g = &coin.chain()[0];
    assert_eq!(g.index, 0);
    assert_eq!(g.previous_hash, "0");
    assert!(g.transactions.is_empty());
    assert!(g.hash.starts_with("00"));
    assert_eq!(g.calculate_hash(), g.hash);
    assert!(coin.pending_transactions().is_empty());
    assert_eq!(coin.mining_reward(), MINING_REWARD);
    assert_eq!(coin.mining_reward(), 100);
}

#[test]
fn chain_is_linked_by_hash_and_index() {
    let mut coin = fresh();
    coin.create_transaction("a".to_string(), "b".to_string(), 1);
    coin.mine_pending_transactions("m".to_string(), T0 + 1).unwrap();
    coin.mine_pending_transactions("m".to_string(), T0 + 1).unwrap();
    let chain = coin.chain();
    assert_eq!(chain.len(), 3);
    for i in 1..chain.len() {
        assert_eq!(chain[i].previous_hash, chain[i - 1].hash);
        assert_eq!(chain[i].index, chain[i - 1].index + 1);
    }
}

#[test]
fn every_block_meets_difficulty_and_recomputes() {
    let mut coin = fresh();
    coin.create_transaction("a".to_string(), "b".to_string(), 7);
    coin.mine_pending_transactions("m".to_string(), T0 + 1).unwrap();
    for b in coin.chain() {
        assert!(b.hash.starts_with("00"));
        assert_eq!(b.hash.len(), 64);
        assert_eq!(b.calculate_hash(), b.hash);
    }
}

#[test]
fn mining_clears_queue_and_keeps_order() {
    let mut coin = fresh();
    coin.create_transaction("a".to_string(), "b".to_string(), 1);
    coin.create_transaction("c".to_string(), "d".to_string(), 2);
    coin.create_transaction("e".to_string(), "f".to_string(), 3);
    assert_eq!(coin.pending_transactions().len(), 3);
    coin.mine_pending_transactions("miner".to_string(), T0 + 1).unwrap();
    assert!(coin.pending_transactions().is_empty());
    let txs = &coin.chain()[1].transactions;
    assert_eq!(txs.len(), 4);
    assert_eq!((txs[0].sender.as_str(), txs[0].receiver.as_str(), txs[0].amount), ("a", "b", 1));
    assert_eq!((txs[1].sender.as_str(), txs[1].receiver.as_str(), txs[1].amount), ("c", "d", 2));
    assert_eq!((txs[2].sender.as_str(), txs[2].receiver.as_str(), txs[2].amount), ("e", "f", 3));
    assert_eq!((txs[3].sender.as_str(), txs[3].receiver.as_str(), txs[3].amount), ("System", "miner", 100));
}

#[test]
fn mining_an_empty_queue_holds_only_the_reward() {
    let mut coin = fresh();
    coin.mine_pending_transactions("m".to_string(), T0 + 1).unwrap();
    let txs = &coin.chain()[1].transactions;
    assert_eq!(txs.len(), 1);
    assert_eq!(txs[0].sender, "System");
    assert_eq!(coin.get_balance_of("m"), 100);
    assert_eq!(coin.get_balance_of("System"), -100);
}

#[test]
fn balances_sum_to_minted_rewards() {
    let mut coin = fresh();
    coin.create_transaction("a".to_string(), "b".to_string(), 30);
    coin.create_transaction("b".to_string(), "c".to_string(), 12);
    coin.mine_pending_transactions("m".to_string(), T0 + 1).unwrap();
    coin.create_transaction("c".to_string(), "a".to_string(), 5);
    coin.mine_pending_transactions("n".to_string(), T0 + 1).unwrap();
    let ids = ["a", "b", "c", "m", "n"];
    let total: i128 = ids.iter().map(|id| coin.get_balance_of(id)).sum();
    assert_eq!(total, 200);
    let without_rewards: i128 = ["a", "b", "c"].iter().map(|id| coin.get_balance_of(id)).sum();
    assert_eq!(without_rewards, 0);
}

#[test]
fn pending_transfers_do_not_count() {
    let mut coin = fresh();
    coin.create_transaction("a".to_string(), "b".to_string(), 30);
    assert_eq!(coin.get_balance_of("a"), 0);
    assert_eq!(coin.get_balance_of("b"), 0);
    assert_eq!(coin.transfer_count(), 1);
}

#[test]
fn unknown_identifier_has_zero_balance() {
    let mut coin = fresh();
    coin.create_transaction("a".to_string(), "b".to_string(), 30);
    coin.mine_pending_transactions("m".to_string(), T0 + 1).unwrap();
    assert_eq!(coin.get_balance_of("nobody"), 0);
    assert_eq!(coin.transfer_count(), 2);
}

#[test]
fn self_transfer_and_negative_amounts() {
    let mut coin = fresh();
    coin.create_transaction("a".to_string(), "a".to_string(), 40);
    coin.create_transaction("a".to_string(), "b".to_string(), -15);
    coin.mine_pending_transactions("m".to_string(), T0 + 1).unwrap();
    assert_eq!(coin.get_balance_of("a"), 15);
    assert_eq!(coin.get_balance_of("b"), -15);
}

#[test]
fn extreme_amounts_do_not_overflow() {
    let mut coin = fresh();
    coin.create_transaction("a".to_string(), "b".to_string(), i64::MAX);
    coin.create_transaction("a".to_string(), "b".to_string(), i64::MAX);
    coin.create_transaction("c".to_string(), "b".to_string(), i64::MIN);
    coin.mine_pending_transactions("m".to_string(), T0 + 1).unwrap();
    assert_eq!(coin.get_balance_of("b"), 2 * (i64::MAX as i128) + (i64::MIN as i128));
    assert_eq!(coin.get_balance_of("a"), -2 * (i64::MAX as i128));
    assert_eq!(coin.get_balance_of("c"), -(i64::MIN as i128));
}

#[test]
fn hash_of_known_fields() {
    let b = Block {
        index: 0,
        timestamp: 1000,
        transactions: vec![],
        previous_hash: "0".to_string(),
        hash: String::new(),
        nonce: 0,
    };
    assert_eq!(b.calculate_hash(), "424a3fdd3ead3f398b4636615494da6f12eee1d771a1b2dab63fae7168977d0c");
    let b = Block {
        index: 7,
        timestamp: 1234,
        transactions: vec![transfer("a", "b", 5), transfer("b", "c", -3)],
        previous_hash: "abc".to_string(),
        hash: String::new(),
        nonce: 42,
    };
    assert_eq!(b.calculate_hash(), "f82fb592e46ad43567c25bf3dab2fc818f2f09e39359072e37e97625327acb34");
}

#[test]
fn block_new_finds_least_nonce() {
    let b = Block::new(0, vec![], "0".to_string(), 1000).unwrap();
    assert_eq!(b.nonce, 1129);
    assert_eq!(b.hash, "0042e6a1f0330f25bb605e84c1687137f5de22f09e3f59ac315d86a5929c547d");
    assert_eq!(b.timestamp, 1000);
    for n in 0..b.nonce {
        let mut other = b.clone();
        other.nonce = n;
        assert!(!other.calculate_hash().starts_with("00"));
    }
}

#[test]
fn block_new_is_deterministic() {
    let txs = vec![transfer("a", "b", 5)];
    let x = Block::new(3, txs.clone(), "00ff".to_string(), 77).unwrap();
    let y = Block::new(3, txs, "00ff".to_string(), 77).unwrap();
    assert_eq!(x.hash, y.hash);
    assert_eq!(x.nonce, y.nonce);
    assert_eq!(x.index, 3);
    assert_eq!(x.previous_hash, "00ff");
    assert_eq!(x.calculate_hash(), x.hash);
}

#[test]
fn block_new_with_clock_time() {
    let now = chrono::Utc::now().timestamp_millis() as u64;
    let b = Block::new(5, vec![transfer("a", "b", 1)], "xyz".to_string(), now).unwrap();
    assert_eq!(b.index, 5);
    assert_eq!(b.previous_hash, "xyz");
    assert_eq!(b.transactions.len(), 1);
    assert_eq!(b.timestamp, now);
    assert!(b.hash.starts_with("00"));
    assert_eq!(b.calculate_hash(), b.hash);
}

#[test]
fn genesis_keeps_its_timestamp_and_blocks_theirs() {
    let mut coin = fresh();
    coin.mine_pending_transactions("m".to_string(), 42).unwrap();
    assert_eq!(coin.chain()[0].timestamp, T0);
    assert_eq!(coin.chain()[1].timestamp, 42);
    assert_eq!(coin.chain()[1].index, 1);
}

#[test]
fn hash_is_lowercase_hex_of_digest_length() {
    let b = Block::new(1, vec![transfer("Q", "R", 9)], "ff".to_string(), 5).unwrap();
    let h = b.calculate_hash();
    assert_eq!(h.len(), 64);
    assert!(h.chars().all(|c| c.is_ascii_digit() || ('a'..='f').contains(&c)));
}

#[test]
fn difficulty_check() {
    assert!(hash_meets_difficulty(&"00ab".to_string()));
    assert!(hash_meets_difficulty(&"00".to_string()));
    assert!(!hash_meets_difficulty(&"0a00".to_string()));
    assert!(!hash_meets_difficulty(&"0".to_string()));
    assert!(!hash_meets_difficulty(&String::new()));
}
