use ledger_chain::block::{commit, meets_difficulty, preimage_text, transactions_json, Block, Transaction};
use ledger_chain::chain::{Blockchain, ChainError, DIFFICULTY, MINING_REWARD, UNITS_PER_COIN};
use ledger_chain::decimal::push_decimal;
use ledger_chain::wallet::{Wallet, WalletManager, ADDRESS_LEN};

const T0: u64 = 1_700_000_000;

fn tx(sender: &str, receiver: &str, amount: u64) -> Transaction {
    Transaction { sender: sender.to_string(), receiver: receiver.to_string(), amount }
}

fn check_links(chain: &Blockchain) {
    let blocks = chain.chain();
    assert_eq!(blocks[0].index, 0);
    assert_eq!(blocks[0].previous_hash, "0");
    for i in 1..blocks.len() {
        assert_eq!(blocks[i].previous_hash, blocks[i - 1].hash);
        assert_eq!(blocks[i].index, blocks[i - 1].index + 1);
    }
    for b in blocks.iter() {
        let expected = commit(b.index, b.timestamp, &b.transactions).unwrap();
        assert_eq!(b.hash, expected);
    }
}

#[test]
fn decimal_text() {
    let mut s = String::from("x");
    push_decimal(&mut s, 0);
    push_decimal(&mut s, 9);
    push_decimal(&mut s, 10);
    push_decimal(&mut s, u64::MAX);
    assert_eq!(s, "x091018446744073709551615");
}

#[test]
fn transaction_list_text() {
    assert_eq!(transactions_json(&vec![]), "[]");
    let one = vec![tx("A", "B", 5 * UNITS_PER_COIN)];
    assert_eq!(transactions_json(&one), "[{\"sender\":\"A\",\"receiver\":\"B\",\"amount\":500000000}]");
    let two = vec![tx("a\"b", "c\\d", 1), tx("e", "f\n", 0)];
    assert_eq!(
        transactions_json(&two),
        "[{\"sender\":\"a\\\"b\",\"receiver\":\"c\\\\d\",\"amount\":1},{\"sender\":\"e\",\"receiver\":\"f\\n\",\"amount\":0}]"
    );
}

#[test]
fn preimage_is_index_timestamp_transactions() {
    assert_eq!(preimage_text(1, 23, &vec![]), "123[]");
    let one = vec![tx("A", "B", 7)];
    assert_eq!(
        preimage_text(4, T0, &one),
        "41700000000[{\"sender\":\"A\",\"receiver\":\"B\",\"amount\":7}]"
    );
}

#[test]
fn sha256_hex_known_values() {
    assert_eq!(
        Block::calculate_hash("abc").unwrap(),
        "ba7816bf8f01cfea414140de5dae2223b00361a396177a9cb410ff61f20015ad"
    );
    assert_eq!(
        Block::calculate_hash("").unwrap(),
        "e3b0c44298fc1c149afbf4c8996fb92427ae41e4649b934ca495991b7852b855"
    );
}

#[test]
fn commitment_is_deterministic_and_field_sensitive() {
    let txs = vec![tx("A", "B", 5)];
    let a = commit(3, T0, &txs).unwrap();
    let b = commit(3, T0, &txs).unwrap();
    assert_eq!(a, b);
    assert_eq!(a.len(), 64);
    assert_ne!(a, commit(4, T0, &txs).unwrap());
    assert_ne!(a, commit(3, T0 + 1, &txs).unwrap());
    assert_ne!(a, commit(3, T0, &vec![tx("A", "B", 6)]).unwrap());
    assert_eq!(a, Block::calculate_hash(&preimage_text(3, T0, &txs)).unwrap());
}

#[test]
fn difficulty_prefix() {
    assert!(meets_difficulty("00ab", 2));
    assert!(meets_difficulty("000", 3));
    assert!(meets_difficulty("abc", 0));
    assert!(!meets_difficulty("0a0", 2));
    assert!(!meets_difficulty("00", 3));
    assert!(!meets_difficulty("", 1));
}

#[test]
fn new_block_is_sealed() {
    let txs = vec![tx("A", "B", 5)];
    let b = Block::new(7, txs.clone(), "prev".to_string(), T0).unwrap();
    assert_eq!(b.index, 7);
    assert_eq!(b.timestamp, T0);
    assert_eq!(b.previous_hash, "prev");
    assert_eq!(b.transactions.len(), 1);
    assert_eq!(b.hash, commit(7, T0, &txs).unwrap());
}

#[test]
fn mining_finds_first_qualifying_timestamp() {
    let mut b = Block::new(1, vec![], "h".to_string(), T0).unwrap();
    assert!(b.mine(2));
    assert!(b.hash.starts_with("00"));
    assert_eq!(b.hash, commit(1, b.timestamp, &b.transactions).unwrap());
    assert!(b.timestamp >= T0);
    for t in T0..b.timestamp {
        assert!(!commit(1, t, &vec![]).unwrap().starts_with("00"));
    }
    assert_eq!(b.index, 1);
    assert_eq!(b.previous_hash, "h");
}

#[test]
fn mining_with_zero_difficulty_keeps_timestamp() {
    let mut b = Block::new(2, vec![], "h".to_string(), T0).unwrap();
    let before = b.hash.clone();
    assert!(b.mine(0));
    assert_eq!(b.timestamp, T0);
    assert_eq!(b.hash, before);
}

#[test]
fn mining_gives_up_when_timestamps_run_out() {
    let mut b = Block::new(1, vec![], "h".to_string(), u64::MAX - 2).unwrap();
    let before = b.hash.clone();
    assert!(!b.mine(65));
    assert_eq!(b.timestamp, u64::MAX);
    assert_eq!(b.hash, before);
}

#[test]
fn genesis_only_chain() {
    let chain = Blockchain::new(WalletManager::new(), T0);
    let blocks = chain.chain();
    assert_eq!(blocks.len(), 1);
    assert_eq!(blocks[0].index, 0);
    assert_eq!(blocks[0].previous_hash, "0");
    assert!(blocks[0].transactions.is_empty());
    assert_eq!(blocks[0].timestamp, T0);
    check_links(&chain);
}

#[test]
fn append_transaction_on_genesis_chain() {
    let mut chain = Blockchain::new(WalletManager::new(), T0);
    let t = tx("A", "B", 5 * UNITS_PER_COIN);
    assert_eq!(chain.add_transaction(t, T0 + 1), Ok(()));
    let blocks = chain.chain();
    assert_eq!(blocks.len(), 2);
    assert_eq!(blocks[1].transactions.len(), 1);
    assert_eq!(blocks[1].transactions[0].sender, "A");
    assert_eq!(blocks[1].transactions[0].receiver, "B");
    assert_eq!(blocks[1].transactions[0].amount, 500_000_000);
    assert_eq!(blocks[1].previous_hash, blocks[0].hash);
    assert_eq!(blocks[1].index, 1);
    check_links(&chain);
}

#[test]
fn many_appends_keep_links() {
    let mut chain = Blockchain::new(WalletManager::new(), T0);
    for i in 0..20u64 {
        assert_eq!(chain.add_transaction(tx("s", "r", i), T0 + i), Ok(()));
    }
    assert_eq!(chain.chain().len(), 21);
    for (i, b) in chain.chain().iter().enumerate() {
        assert_eq!(b.index as usize, i);
    }
    check_links(&chain);
}

#[test]
fn mine_twice_rewards_miner() {
    let mut wallets = WalletManager::new();
    let a = wallets.create_wallet();
    let mut chain = Blockchain::new(wallets, T0);
    assert_eq!(chain.get_balance(&a), Some(0));
    assert_eq!(chain.mine_block(&a, T0 + 1), Ok(()));
    assert_eq!(chain.mine_block(&a, T0 + 2), Ok(()));
    let blocks = chain.chain();
    assert_eq!(blocks.len(), 3);
    for (i, b) in blocks.iter().enumerate() {
        assert_eq!(b.index as usize, i);
    }
    assert!(blocks[1].hash.starts_with("00"));
    assert!(blocks[2].hash.starts_with("00"));
    assert!(blocks[1].transactions.is_empty());
    check_links(&chain);
    assert_eq!(chain.get_balance(&a), Some(2 * MINING_REWARD));
    assert_eq!(MINING_REWARD, 10 * UNITS_PER_COIN);
    assert_eq!(DIFFICULTY, 2);
}

#[test]
fn mine_block_adds_reward_to_existing_balance() {
    let mut wallets = WalletManager::new();
    let a = wallets.create_wallet();
    let b = wallets.create_wallet();
    let mut chain = Blockchain::new(wallets, T0);
    assert!(chain.credit_wallet(&a, 100 * UNITS_PER_COIN));
    assert_eq!(chain.mine_block(&a, T0), Ok(()));
    assert_eq!(chain.get_balance(&a), Some(110 * UNITS_PER_COIN));
    assert_eq!(chain.get_balance(&b), Some(0));
}

#[test]
fn mine_block_for_unknown_address_credits_nothing() {
    let mut chain = Blockchain::new(WalletManager::new(), T0);
    assert_eq!(chain.mine_block("nobody", T0), Ok(()));
    assert_eq!(chain.chain().len(), 2);
    assert_eq!(chain.get_balance("nobody"), None);
}

#[test]
fn mine_block_at_last_timestamp() {
    let mut chain = Blockchain::new(WalletManager::new(), T0);
    let qualifies = meets_difficulty(&commit(1, u64::MAX, &vec![]).unwrap(), DIFFICULTY);
    let r = chain.mine_block("m", u64::MAX);
    if qualifies {
        assert_eq!(r, Ok(()));
        assert_eq!(chain.chain().len(), 2);
    } else {
        assert_eq!(r, Err(ChainError::NoProofFound));
        assert_eq!(chain.chain().len(), 1);
    }
}

#[test]
fn wallets_create_credit_and_query() {
    let mut wallets = WalletManager::new();
    let a = wallets.create_wallet();
    assert_eq!(a.len(), ADDRESS_LEN);
    assert!(a.chars().all(|c| c.is_ascii_alphanumeric()));
    assert_eq!(wallets.get_balance(&a), Some(0));
    assert!(wallets.credit_wallet(&a, 25));
    assert!(wallets.credit_wallet(&a, 5));
    assert_eq!(wallets.get_balance(&a), Some(30));
    assert!(!wallets.credit_wallet("unknown", 5));
    assert_eq!(wallets.get_balance("unknown"), None);
    assert!(!wallets.credit_wallet(&a, u64::MAX));
    assert_eq!(wallets.get_balance(&a), Some(30));
}

#[test]
fn generated_addresses_are_alphanumeric() {
    let wallets = WalletManager::new();
    let a = wallets.generate_address();
    assert_eq!(a.len(), 8);
    assert!(a.chars().all(|c| c.is_ascii_alphanumeric()));
}

#[test]
fn new_wallet_is_empty() {
    let w = Wallet::new("abc".to_string());
    assert_eq!(w.address, "abc");
    assert_eq!(w.balance, 0);
}
