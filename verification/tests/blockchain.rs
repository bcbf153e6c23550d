use asb::blockchain::Blockchain;

const STAMP: &str = "01-02-2024 03:04:05";

fn zeros() -> String {
    "0".repeat(64)
}

#[test]
fn blockchain_test_new() {
    let blockchain = Blockchain::new(1).unwrap();

    assert_eq!(blockchain.chain.len(), 1);
    assert_eq!(blockchain.transactions.len(), 1);
}

#[test]
fn test_add_transaction() {
    let mut blockchain = Blockchain::new(1).unwrap();
    blockchain.add_transaction("test".to_string());

    assert_eq!(blockchain.chain.len(), 2);
    assert_eq!(blockchain.transactions.len(), 2);
}

#[test]
fn fresh_chain_holds_the_genesis_block() {
    for difficulty in 0..=2 {
        let blockchain = Blockchain::new(difficulty).unwrap();
        assert_eq!(blockchain.difficulty, difficulty);
        assert_eq!(blockchain.chain.len(), 1);
        assert_eq!(blockchain.chain[0].index, 0);
        assert_eq!(blockchain.chain[0].data, "Genesis Block");
        assert_eq!(blockchain.chain[0].previous_hash, zeros());
        assert_eq!(blockchain.transactions[0], blockchain.chain[0].block_hash);
        assert!(blockchain.is_valid());
    }
}

#[test]
fn new_at_mines_the_genesis_block() {
    let blockchain = Blockchain::new_at(1, STAMP).unwrap();
    assert_eq!(blockchain.chain.len(), 1);
    assert_eq!(blockchain.chain[0].timestamp, STAMP);
    assert_eq!(blockchain.chain[0].nonce, 11);
    assert_eq!(
        blockchain.chain[0].block_hash,
        "0d8b0f8f5c64732397cbdbaef1e950aba7be2375ba78d75df2d9fa7841adbe46"
    );
    assert_eq!(blockchain.transactions, vec![blockchain.chain[0].block_hash.clone()]);
}

#[test]
fn one_added_block_follows_the_genesis_block() {
    let mut blockchain = Blockchain::new(1).unwrap();
    assert!(blockchain.add_transaction("payload".to_string()));
    assert_eq!(blockchain.chain.len(), 2);
    assert_eq!(blockchain.chain[1].previous_hash, blockchain.chain[0].block_hash);
    assert_eq!(blockchain.chain[1].index, 1);
    assert_eq!(blockchain.chain[1].data, "payload");
    assert_eq!(blockchain.transactions[1], blockchain.chain[1].block_hash);
}

#[test]
fn add_transaction_at_mines_the_next_block() {
    let mut blockchain = Blockchain::new_at(1, STAMP).unwrap();
    assert!(blockchain.add_transaction_at("BLOCK 1".to_string(), STAMP));
    assert!(blockchain.add_transaction_at("BLOCK 2".to_string(), STAMP));
    assert_eq!(blockchain.chain.len(), 3);
    assert_eq!(blockchain.chain[1].nonce, 72);
    assert_eq!(
        blockchain.chain[1].block_hash,
        "038ed1108a4ed7577df02348f159bc06d1d0cf3ad660888590b487de51f5a47c"
    );
    assert_eq!(blockchain.chain[2].nonce, 10);
    assert_eq!(
        blockchain.chain[2].block_hash,
        "0ffb3b8e5316e3b8480e5f4adc24b5b3cf749fdd6a2fa61c00aa4d3ff61a2165"
    );
    assert_eq!(blockchain.chain[2].timestamp, STAMP);
    assert_eq!(blockchain.transactions.len(), 3);
    for i in 0..3 {
        assert_eq!(blockchain.transactions[i], blockchain.chain[i].block_hash);
    }
}

#[test]
fn three_block_chain_end_to_end() {
    let mut blockchain = Blockchain::new(1).unwrap();
    assert!(blockchain.add_transaction("BLOCK 1".to_string()));
    assert!(blockchain.add_transaction("BLOCK 2".to_string()));

    assert_eq!(blockchain.chain.len(), 3);
    assert_eq!(blockchain.chain[0].index, 0);
    assert_eq!(blockchain.chain[0].previous_hash, zeros());
    assert_eq!(blockchain.chain[1].previous_hash, blockchain.chain[0].block_hash);
    assert_eq!(blockchain.chain[2].previous_hash, blockchain.chain[1].block_hash);
    for block in &blockchain.chain {
        assert!(block.block_hash.starts_with("0"));
        assert_eq!(block.block_hash.len(), 64);
    }
    assert_eq!(blockchain.chain[1].data, "BLOCK 1");
    assert_eq!(blockchain.chain[2].data, "BLOCK 2");
    assert_eq!(blockchain.chain[2].index, 2);
}

#[test]
fn built_chain_is_valid() {
    let mut blockchain = Blockchain::new(2).unwrap();
    assert!(blockchain.is_valid());
    for i in 1..5 {
        assert!(blockchain.add_transaction(format!("BLOCK {}", i)));
        assert!(blockchain.is_valid());
    }
    assert_eq!(blockchain.chain.len(), 5);
}

#[test]
fn tampered_previous_hash_is_detected() {
    for victim in 0..3 {
        let mut blockchain = Blockchain::new_at(1, STAMP).unwrap();
        assert!(blockchain.add_transaction_at("BLOCK 1".to_string(), STAMP));
        assert!(blockchain.add_transaction_at("BLOCK 2".to_string(), STAMP));
        assert!(blockchain.is_valid());
        blockchain.chain[victim].previous_hash = "f".repeat(64);
        assert!(!blockchain.is_valid());
    }
}

#[test]
fn remined_block_with_a_wrong_link_is_detected() {
    let mut blockchain = Blockchain::new_at(1, STAMP).unwrap();
    assert!(blockchain.add_transaction_at("BLOCK 1".to_string(), STAMP));
    blockchain.chain[1].previous_hash = "f".repeat(64);
    assert!(blockchain.chain[1].mine_block(1));
    assert!(blockchain.chain[1].is_sealed(1));
    assert!(!blockchain.is_valid());
}

#[test]
fn tampered_payload_is_detected() {
    let mut blockchain = Blockchain::new_at(1, STAMP).unwrap();
    assert!(blockchain.add_transaction_at("BLOCK 1".to_string(), STAMP));
    blockchain.chain[0].data = "Another Block".to_string();
    assert!(!blockchain.is_valid());
}

#[test]
fn chain_mined_at_a_lower_difficulty_is_not_valid_at_a_higher_one() {
    let mut blockchain = Blockchain::new_at(1, STAMP).unwrap();
    assert!(blockchain.add_transaction_at("BLOCK 1".to_string(), STAMP));
    assert!(blockchain.is_valid());
    blockchain.difficulty = 0;
    assert!(blockchain.is_valid());
    blockchain.difficulty = 2;
    assert!(!blockchain.is_valid());
}

#[test]
fn chain_at_difficulty_zero_is_always_built() {
    let mut blockchain = Blockchain::new(0).unwrap();
    assert_eq!(blockchain.chain[0].nonce, 0);
    assert!(blockchain.add_transaction("BLOCK 1".to_string()));
    assert!(blockchain.add_transaction(String::new()));
    assert_eq!(blockchain.chain.len(), 3);
    assert_eq!(blockchain.chain[1].nonce, 0);
    assert_eq!(blockchain.chain[2].nonce, 0);
    assert_eq!(blockchain.chain[2].data, "");
    assert!(blockchain.is_valid());
}

#[test]
fn added_block_is_stamped_with_short_ascii_text() {
    let mut blockchain = Blockchain::new(1).unwrap();
    assert!(blockchain.add_transaction("BLOCK 1".to_string()));
    for block in &blockchain.chain {
        assert!(block.timestamp.is_ascii());
        assert!(block.timestamp.len() >= 19 && block.timestamp.len() <= 26);
    }
}
