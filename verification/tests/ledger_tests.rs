use powchain::block::{Block, Transaction};
use powchain::ledger::Blockchain;

fn hex_digits(bytes: &[u8]) -> String {
    let mut s = String::new();
    for b in bytes {
        s += &format!("{:02x}", b);
    }
    s
}

#[test]
fn test_create_account() {
    let mut chain = Blockchain::new();
    let account_id = chain.create_account();
    assert_eq!(account_id.len(), 64);
    assert!(account_id.chars().all(|c| c.is_ascii_hexdigit() && !c.is_ascii_uppercase()));
    assert_eq!(chain.get_balance(&account_id), 50);
}

#[test]
fn test_account_ids_differ() {
    let mut chain = Blockchain::new();
    let a = chain.create_account();
    let b = chain.create_account();
    assert_ne!(a, b);
}

#[test]
fn test_genesis_block() {
    let chain = Blockchain::new();
    assert_eq!(chain.chain.len(), 1);
    let g = &chain.chain[0];
    assert_eq!(g.index, 0);
    assert_eq!(g.previous_hash, "0");
    assert_eq!(g.timestamp, 0);
    assert!(g.transactions.is_empty());
    assert_eq!(g.nonce, 0);
    assert_eq!(g.hash, "genesis_hash");
}

#[test]
fn test_transfer_moves_balances() {
    let mut chain = Blockchain::new();
    let a = chain.create_account();
    let b = chain.create_account();
    assert!(chain.add_transaction(a.clone(), b.clone(), 23));
    assert_eq!(chain.get_balance(&a), 27);
    assert_eq!(chain.get_balance(&b), 73);
    assert_eq!(chain.mempool.len(), 1);
    assert_eq!(chain.mempool[0].from, a);
    assert_eq!(chain.mempool[0].to, b);
    assert_eq!(chain.mempool[0].amount, 23);
}

#[test]
fn test_transfer_insufficient_balance() {
    let mut chain = Blockchain::new();
    let a = chain.create_account();
    let b = chain.create_account();
    assert!(!chain.add_transaction(a.clone(), b.clone(), 51));
    assert_eq!(chain.get_balance(&a), 50);
    assert_eq!(chain.get_balance(&b), 50);
    assert_eq!(chain.mempool.len(), 0);
}

#[test]
fn test_transfer_unknown_sender() {
    let mut chain = Blockchain::new();
    let b = chain.create_account();
    assert!(!chain.add_transaction(String::from("nobody"), b.clone(), 1));
    assert_eq!(chain.get_balance(&b), 50);
    assert_eq!(chain.get_balance("nobody"), 0);
}

#[test]
fn test_transfer_creates_receiver() {
    let mut chain = Blockchain::new();
    let a = chain.create_account();
    assert!(chain.add_transaction(a.clone(), String::from("fresh"), 20));
    assert_eq!(chain.get_balance(&a), 30);
    assert_eq!(chain.get_balance("fresh"), 20);
}

#[test]
fn test_mine_block_seals_mempool() {
    let mut chain = Blockchain::new();
    let a = chain.create_account();
    let b = chain.create_account();
    assert!(chain.add_transaction(a.clone(), b.clone(), 23));
    assert_eq!(chain.get_balance(&a), 27);
    assert_eq!(chain.get_balance(&b), 73);
    let block = chain.mine_block();
    assert_eq!(&block.hash[0..4], "0000");
    assert_eq!(block.index, 1);
    assert_eq!(block.previous_hash, "genesis_hash");
    assert_eq!(block.transactions.len(), 1);
    assert_eq!(block.transactions[0].from, a);
    assert_eq!(block.transactions[0].to, b);
    assert_eq!(block.transactions[0].amount, 23);
    assert!(chain.mempool.is_empty());
    assert_eq!(chain.chain.len(), 2);
    assert_eq!(chain.chain[1], block);
    assert_eq!(chain.get_balance(&a), 27);
    assert_eq!(chain.get_balance(&b), 73);
}

#[test]
fn test_mine_block_empty_mempool() {
    let mut chain = Blockchain::new();
    let block = chain.mine_block();
    assert_eq!(&block.hash[0..4], "0000");
    assert_eq!(block.index, 1);
    assert!(block.transactions.is_empty());
    assert_eq!(chain.chain.len(), 2);
}

#[test]
fn test_validate_block_rejects_wrong_previous_hash() {
    let chain = Blockchain::new();
    let block = Block {
        index: 1,
        previous_hash: String::from("bogus"),
        timestamp: 7,
        transactions: Vec::new(),
        nonce: 0,
        hash: String::from("anything"),
    };
    assert!(!chain.validate_block(&block));
}

#[test]
fn test_validate_block_rejects_wrong_index() {
    let chain = Blockchain::new();
    let block = Block {
        index: 2,
        previous_hash: String::from("genesis_hash"),
        timestamp: 7,
        transactions: Vec::new(),
        nonce: 0,
        hash: String::from("anything"),
    };
    assert!(!chain.validate_block(&block));
}

#[test]
fn test_validate_block_rejects_wrong_hash() {
    let chain = Blockchain::new();
    let block = Block {
        index: 1,
        previous_hash: String::from("genesis_hash"),
        timestamp: 7,
        transactions: Vec::new(),
        nonce: 0,
        hash: String::from("0000forged"),
    };
    assert!(!chain.validate_block(&block));
}

#[test]
fn test_add_block_rejects_invalid() {
    let mut chain = Blockchain::new();
    let block = Block {
        index: 1,
        previous_hash: String::from("bogus"),
        timestamp: 7,
        transactions: Vec::new(),
        nonce: 0,
        hash: String::from("anything"),
    };
    assert!(!chain.add_block(block));
    assert_eq!(chain.chain.len(), 1);
}

#[test]
fn test_resubmitted_block_rejected() {
    let mut chain = Blockchain::new();
    let a = chain.create_account();
    let b = chain.create_account();
    assert!(chain.add_transaction(a, b, 5));
    let block = chain.mine_block();
    assert_eq!(chain.chain.len(), 2);
    // The tip has advanced past the mined block: resubmission fails.
    assert!(!chain.add_block(block.clone()));
    assert!(!chain.validate_block(&block));
    assert_eq!(chain.chain.len(), 2);
}

#[test]
fn test_hash_matches_reference_digest() {
    let genesis = Blockchain::create_genesis_block();
    let expected_json = "{\"index\":0,\"previous_hash\":\"0\",\"timestamp\":0,\"transactions\":[],\"nonce\":0,\"hash\":\"genesis_hash\"}";
    assert_eq!(powchain::codec::block_json(&genesis), expected_json.as_bytes().to_vec());
    let digest = <sha2::Sha256 as sha2::Digest>::digest(expected_json.as_bytes());
    let expected = hex_digits(&digest);
    assert_eq!(Blockchain::hash(&genesis), expected);
}

#[test]
fn test_block_json_with_transactions_and_escapes() {
    let block = Block {
        index: 3,
        previous_hash: String::from("prev"),
        timestamp: 1700000000,
        transactions: vec![
            Transaction { from: String::from("al\"ice"), to: String::from("bo\\b"), amount: 12 },
            Transaction { from: String::from("line\nfeed"), to: String::from("tab\there"), amount: 18446744073709551615 },
        ],
        nonce: 42,
        hash: String::from("h\u{1}"),
    };
    let expected = "{\"index\":3,\"previous_hash\":\"prev\",\"timestamp\":1700000000,\"transactions\":[{\"from\":\"al\\\"ice\",\"to\":\"bo\\\\b\",\"amount\":12},{\"from\":\"line\\nfeed\",\"to\":\"tab\\there\",\"amount\":18446744073709551615}],\"nonce\":42,\"hash\":\"h\\u0001\"}";
    assert_eq!(powchain::codec::block_json(&block), expected.as_bytes().to_vec());
}

#[test]
fn test_block_wire_line_is_newline_terminated() {
    let genesis = Blockchain::create_genesis_block();
    let mut expected = powchain::codec::block_json(&genesis);
    expected.push(b'\n');
    assert_eq!(powchain::codec::block_wire_line(&genesis), expected);
}

#[test]
fn test_is_valid_hash() {
    assert!(Blockchain::is_valid_hash("0000abcd"));
    assert!(Blockchain::is_valid_hash("0000"));
    assert!(!Blockchain::is_valid_hash("000"));
    assert!(!Blockchain::is_valid_hash("0001abcd"));
    assert!(!Blockchain::is_valid_hash(""));
    assert!(!Blockchain::is_valid_hash("genesis_hash"));
}

#[test]
fn test_mined_block_not_accepted_by_peer_ledger() {
    // The canonical encoding includes the hash field itself, so the hash a
    // miner stores was computed while the field still held the previous
    // round's guess; recomputing it over the sealed block gives another
    // string, and a peer's validation rejects the block.
    let mut node1 = Blockchain::new();
    let mut node2 = Blockchain::new();
    let a = node1.create_account();
    let b = node1.create_account();
    assert!(node1.add_transaction(a, b, 5));
    let block = node1.mine_block();
    assert_ne!(Blockchain::hash(&block), block.hash);
    assert!(!node2.add_block(block));
    assert_eq!(node2.chain.len(), 1);
}

#[test]
fn test_self_transfer_keeps_balance() {
    let mut chain = Blockchain::new();
    let a = chain.create_account();
    assert!(chain.add_transaction(a.clone(), a.clone(), 10));
    assert_eq!(chain.get_balance(&a), 50);
    assert_eq!(chain.mempool.len(), 1);
}
