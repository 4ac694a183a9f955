use blockchain::{Blockchain, Transaction};

fn tx(from: &str, to: &str, amount: i64) -> Transaction {
    Transaction::new(from.to_string(), to.to_string(), amount)
}

fn two_blocks_mined(ledger: &mut Blockchain) {
    ledger.add_transaction(tx("Alice", "Bob", 50));
    ledger.add_transaction(tx("Bob", "Charlie", 25));
    assert!(ledger.mine_pending_transactions("Miner1".to_string()));
    ledger.add_transaction(tx("Charlie", "Alice", 10));
    ledger.add_transaction(tx("Alice", "Bob", 5));
    assert!(ledger.mine_pending_transactions("Miner2".to_string()));
}

#[test]
fn new_ledger_has_the_defaults_and_a_mined_genesis_block() {
    let ledger = Blockchain::new();
    assert_eq!(ledger.difficulty, 2);
    assert_eq!(ledger.mining_reward, 100);
    assert!(ledger.pending_transactions.is_empty());
    assert_eq!(ledger.chain.len(), 1);
    let genesis = &ledger.chain[0];
    assert_eq!(genesis.index, 0);
    assert_eq!(genesis.previous_hash, "0");
    assert_eq!(genesis.transactions.len(), 1);
    assert_eq!(genesis.transactions[0].from, "Genesis");
    assert_eq!(genesis.transactions[0].to, "Genesis");
    assert_eq!(genesis.transactions[0].amount, 0);
    assert!(genesis.hash.starts_with("00"));
    assert_eq!(genesis.hash, genesis.calculate_hash());
    assert!(ledger.is_chain_valid());
}

#[test]
fn ledger_started_at_a_given_time() {
    let ledger = Blockchain::started_at(1_700_000_000, 3, 7);
    assert_eq!(ledger.difficulty, 3);
    assert_eq!(ledger.mining_reward, 7);
    assert!(ledger.pending_transactions.is_empty());
    assert_eq!(ledger.chain.len(), 1);
    assert_eq!(ledger.chain[0].index, 0);
    assert_eq!(ledger.chain[0].timestamp, 1_700_000_000);
    assert_eq!(ledger.chain[0].previous_hash, "0");
    assert_eq!(ledger.chain[0].nonce, 4326);
    assert_eq!(
        ledger.chain[0].hash,
        "0001e92dd191b19d02cddd944c0163482e39db121acc390e4faebcc617d3f0a3"
    );
}

#[test]
fn latest_block_is_the_last_one() {
    let mut ledger = Blockchain::new();
    assert_eq!(ledger.get_latest_block().index, 0);
    assert_eq!(ledger.get_latest_block().hash, ledger.chain[0].hash);
    ledger.mine_pending_transactions("Miner1".to_string());
    assert_eq!(ledger.get_latest_block().index, 1);
    assert_eq!(ledger.get_latest_block().hash, ledger.chain[1].hash);
}

#[test]
fn add_transaction_appends_to_the_pending_buffer() {
    let mut ledger = Blockchain::new();
    ledger.add_transaction(tx("Alice", "Bob", 50));
    ledger.add_transaction(tx("Alice", "Bob", 50));
    ledger.add_transaction(tx("Nobody", "Alice", -1_000_000));
    assert_eq!(ledger.chain.len(), 1);
    assert_eq!(ledger.pending_transactions.len(), 3);
    assert_eq!(ledger.pending_transactions[0].from, "Alice");
    assert_eq!(ledger.pending_transactions[1].to, "Bob");
    assert_eq!(ledger.pending_transactions[2].from, "Nobody");
    assert_eq!(ledger.pending_transactions[2].amount, -1_000_000);
    assert_eq!(ledger.difficulty, 2);
    assert_eq!(ledger.mining_reward, 100);
    // Pending transactions count for nothing yet.
    assert_eq!(ledger.get_balance("Alice"), Some(0));
}

#[test]
fn mining_packages_pending_transactions_and_the_reward() {
    let mut ledger = Blockchain::new();
    ledger.add_transaction(tx("Alice", "Bob", 50));
    ledger.add_transaction(tx("Bob", "Charlie", 25));
    let tip = ledger.get_latest_block().hash.clone();
    assert!(ledger.mine_pending_transactions("Miner1".to_string()));
    assert_eq!(ledger.chain.len(), 2);
    assert!(ledger.pending_transactions.is_empty());
    assert_eq!(ledger.difficulty, 2);
    assert_eq!(ledger.mining_reward, 100);
    let block = &ledger.chain[1];
    assert_eq!(block.index, 1);
    assert_eq!(block.previous_hash, tip);
    assert_eq!(block.transactions.len(), 3);
    assert_eq!(block.transactions[0].from, "Alice");
    assert_eq!(block.transactions[0].to, "Bob");
    assert_eq!(block.transactions[0].amount, 50);
    assert_eq!(block.transactions[1].from, "Bob");
    assert_eq!(block.transactions[1].to, "Charlie");
    assert_eq!(block.transactions[1].amount, 25);
    assert_eq!(block.transactions[2].from, "System");
    assert_eq!(block.transactions[2].to, "Miner1");
    assert_eq!(block.transactions[2].amount, 100);
    assert!(block.hash.starts_with("00"));
    assert_eq!(block.hash, block.calculate_hash());
}

#[test]
fn mining_with_nothing_pending_still_appends_a_reward_block() {
    let mut ledger = Blockchain::new();
    assert!(ledger.mine_pending_transactions("Miner1".to_string()));
    assert_eq!(ledger.chain.len(), 2);
    assert_eq!(ledger.chain[1].transactions.len(), 1);
    assert_eq!(ledger.chain[1].transactions[0].from, "System");
    assert_eq!(ledger.chain[1].transactions[0].to, "Miner1");
    assert_eq!(ledger.chain[1].transactions[0].amount, 100);
    assert!(ledger.pending_transactions.is_empty());
    assert_eq!(ledger.get_balance("Miner1"), Some(100));
}

#[test]
fn mining_at_given_times_is_reproducible() {
    let mut ledger = Blockchain::started_at(1_700_000_000, 2, 100);
    ledger.add_transaction(tx("Alice", "Bob", 50));
    ledger.add_transaction(tx("Bob", "Charlie", 25));
    assert!(ledger.mine_pending_transactions_at("Miner1".to_string(), 1_700_000_100));
    ledger.add_transaction(tx("Charlie", "Alice", 10));
    ledger.add_transaction(tx("Alice", "Bob", 5));
    assert!(ledger.mine_pending_transactions_at("Miner2".to_string(), 1_700_000_200));

    assert_eq!(ledger.chain.len(), 3);
    assert_eq!(ledger.chain[0].nonce, 36);
    assert_eq!(
        ledger.chain[0].hash,
        "007e5e8679431bbfaa5ed6054bb0e5c6482c12be295af3ad4957d50d0c8d6284"
    );
    assert_eq!(ledger.chain[1].timestamp, 1_700_000_100);
    assert_eq!(ledger.chain[1].nonce, 29);
    assert_eq!(
        ledger.chain[1].hash,
        "0001498fb79d7d0669fe2acbebb2b51863a8b4a28f8042428c7262e300c9a70d"
    );
    assert_eq!(ledger.chain[2].timestamp, 1_700_000_200);
    assert_eq!(ledger.chain[2].nonce, 24);
    assert_eq!(
        ledger.chain[2].hash,
        "0069b5855d47842dc16bb4d10c8315e0d720b11c3f55b024161db211f735f2d9"
    );
    assert!(ledger.is_chain_valid());
}

#[test]
fn blocks_are_numbered_and_linked() {
    let mut ledger = Blockchain::new();
    for round in 0..5 {
        ledger.add_transaction(tx("Alice", "Bob", round));
        assert!(ledger.mine_pending_transactions("Miner1".to_string()));
    }
    assert_eq!(ledger.chain.len(), 6);
    assert_eq!(ledger.chain[0].previous_hash, "0");
    for i in 0..ledger.chain.len() {
        assert_eq!(ledger.chain[i].index, i as u64);
        assert!(ledger.chain[i].hash.starts_with("00"));
        assert_eq!(ledger.chain[i].hash, ledger.chain[i].calculate_hash());
    }
    for i in 1..ledger.chain.len() {
        assert_eq!(ledger.chain[i].previous_hash, ledger.chain[i - 1].hash);
    }
    assert!(ledger.is_chain_valid());
}

#[test]
fn difficulty_of_the_ledger_governs_its_blocks() {
    let mut ledger = Blockchain::started_at(5, 0, 1);
    assert_eq!(ledger.chain[0].nonce, 0);
    assert!(ledger.mine_pending_transactions_at("Miner1".to_string(), 6));
    assert_eq!(ledger.chain[1].nonce, 0);
    assert_eq!(ledger.chain[1].transactions[0].amount, 1);
    assert!(ledger.is_chain_valid());

    let mut ledger = Blockchain::started_at(5, 3, 1);
    assert!(ledger.mine_pending_transactions_at("Miner1".to_string(), 6));
    assert!(ledger.chain[0].hash.starts_with("000"));
    assert!(ledger.chain[1].hash.starts_with("000"));
}

#[test]
fn balance_of_an_unknown_address_is_zero() {
    let mut ledger = Blockchain::new();
    assert_eq!(ledger.get_balance("Nobody"), Some(0));
    assert_eq!(ledger.get_balance(""), Some(0));
    two_blocks_mined(&mut ledger);
    assert_eq!(ledger.get_balance("Nobody"), Some(0));
    assert_eq!(ledger.get_balance("Genesis"), Some(0));
}

#[test]
fn balance_subtracts_what_was_sent_and_adds_what_was_received() {
    let mut ledger = Blockchain::started_at(0, 1, 100);
    ledger.add_transaction(tx("Alice", "Bob", 30));
    ledger.add_transaction(tx("Bob", "Alice", 10));
    ledger.add_transaction(tx("Alice", "Alice", 1_000));
    ledger.add_transaction(tx("Carol", "Alice", -4));
    ledger.mine_pending_transactions_at("Alice".to_string(), 1);
    assert_eq!(ledger.get_balance("Alice"), Some(-30 + 10 - 4 + 100));
    assert_eq!(ledger.get_balance("Bob"), Some(20));
    assert_eq!(ledger.get_balance("Carol"), Some(4));
    assert_eq!(ledger.get_balance("System"), Some(-100));
}

#[test]
fn balance_does_not_overflow_on_extreme_amounts() {
    let mut ledger = Blockchain::started_at(0, 0, i64::MAX);
    ledger.add_transaction(tx("Alice", "Bob", i64::MAX));
    ledger.add_transaction(tx("Alice", "Bob", i64::MAX));
    ledger.add_transaction(tx("Bob", "Alice", i64::MIN));
    ledger.mine_pending_transactions_at("Bob".to_string(), 1);
    let max = i64::MAX as i128;
    let min = i64::MIN as i128;
    // Sending a negative amount adds to the sender and takes from the recipient.
    assert_eq!(ledger.get_balance("Bob"), Some(2 * max - min + max));
    assert_eq!(ledger.get_balance("Alice"), Some(-2 * max + min));
}

#[test]
fn balances_cancel_over_all_parties() {
    let mut ledger = Blockchain::new();
    two_blocks_mined(&mut ledger);
    let parties = ["Genesis", "System", "Alice", "Bob", "Charlie", "Miner1", "Miner2"];
    let total: i128 = parties.iter().map(|p| ledger.get_balance(p).unwrap()).sum();
    assert_eq!(total, 0);
    // Without the payer of the rewards, what is left is what it paid.
    let total: i128 = parties
        .iter()
        .filter(|p| **p != "System")
        .map(|p| ledger.get_balance(p).unwrap())
        .sum();
    assert_eq!(total, 200);
}

#[test]
fn balances_cancel_without_rewards() {
    let mut ledger = Blockchain::started_at(0, 1, 0);
    ledger.add_transaction(tx("Alice", "Bob", 50));
    ledger.add_transaction(tx("Bob", "Charlie", 25));
    ledger.add_transaction(tx("Charlie", "Alice", -9));
    ledger.mine_pending_transactions_at("Miner1".to_string(), 1);
    let total: i128 =
        ["Alice", "Bob", "Charlie"].iter().map(|p| ledger.get_balance(p).unwrap()).sum();
    assert_eq!(total, 0);
}

#[test]
fn end_to_end() {
    let mut ledger = Blockchain::new();
    assert_eq!(ledger.difficulty, 2);

    ledger.add_transaction(tx("Alice", "Bob", 50));
    ledger.add_transaction(tx("Bob", "Charlie", 25));
    assert!(ledger.mine_pending_transactions("Miner1".to_string()));
    assert_eq!(ledger.get_balance("Alice"), Some(-50));
    assert_eq!(ledger.get_balance("Bob"), Some(25));
    assert_eq!(ledger.get_balance("Charlie"), Some(25));
    assert_eq!(ledger.get_balance("Miner1"), Some(100));

    ledger.add_transaction(tx("Charlie", "Alice", 10));
    ledger.add_transaction(tx("Alice", "Bob", 5));
    assert!(ledger.mine_pending_transactions("Miner2".to_string()));
    assert_eq!(ledger.get_balance("Alice"), Some(-45));
    assert_eq!(ledger.get_balance("Bob"), Some(30));
    assert_eq!(ledger.get_balance("Charlie"), Some(15));
    assert_eq!(ledger.get_balance("Miner1"), Some(100));
    assert_eq!(ledger.get_balance("Miner2"), Some(100));

    assert!(ledger.is_chain_valid());
    ledger.chain[1].transactions[0].amount = 1000;
    assert!(!ledger.is_chain_valid());
}

#[test]
fn fresh_chains_are_valid() {
    let mut ledger = Blockchain::new();
    assert!(ledger.is_chain_valid());
    for _ in 0..3 {
        ledger.mine_pending_transactions("Miner1".to_string());
        assert!(ledger.is_chain_valid());
    }
}

#[test]
fn a_chain_without_blocks_is_valid() {
    let ledger = Blockchain {
        chain: vec![],
        difficulty: 2,
        pending_transactions: vec![],
        mining_reward: 100,
    };
    assert!(ledger.is_chain_valid());
    assert_eq!(ledger.get_balance("Alice"), Some(0));
}

#[test]
fn changing_an_amount_in_any_later_block_is_detected() {
    for i in 1..3 {
        let mut ledger = Blockchain::new();
        two_blocks_mined(&mut ledger);
        for t in 0..ledger.chain[i].transactions.len() {
            let kept = ledger.chain[i].transactions[t].amount;
            ledger.chain[i].transactions[t].amount = kept + 1;
            assert!(!ledger.is_chain_valid());
            ledger.chain[i].transactions[t].amount = kept;
            assert!(ledger.is_chain_valid());
        }
    }
}

#[test]
fn changing_any_field_of_a_later_block_is_detected() {
    let mut ledger = Blockchain::new();
    two_blocks_mined(&mut ledger);

    ledger.chain[1].index = 9;
    assert!(!ledger.is_chain_valid());
    ledger.chain[1].index = 1;
    assert!(ledger.is_chain_valid());

    ledger.chain[2].timestamp += 1;
    assert!(!ledger.is_chain_valid());
    ledger.chain[2].timestamp -= 1;
    assert!(ledger.is_chain_valid());

    ledger.chain[1].transactions[1].to = "Mallory".to_string();
    assert!(!ledger.is_chain_valid());
    ledger.chain[1].transactions[1].to = "Charlie".to_string();
    assert!(ledger.is_chain_valid());

    ledger.chain[1].transactions[0].from = "Mallory".to_string();
    assert!(!ledger.is_chain_valid());
    ledger.chain[1].transactions[0].from = "Alice".to_string();
    assert!(ledger.is_chain_valid());

    ledger.chain[2].nonce += 1;
    assert!(!ledger.is_chain_valid());
    ledger.chain[2].nonce -= 1;
    assert!(ledger.is_chain_valid());

    let kept = ledger.chain[2].hash.clone();
    ledger.chain[2].hash = ledger.chain[1].hash.clone();
    assert!(!ledger.is_chain_valid());
    ledger.chain[2].hash = kept;
    assert!(ledger.is_chain_valid());

    let kept = ledger.chain[1].previous_hash.clone();
    ledger.chain[1].previous_hash = "0".to_string();
    assert!(!ledger.is_chain_valid());
    ledger.chain[1].previous_hash = kept;
    assert!(ledger.is_chain_valid());
}

#[test]
fn changing_two_fields_that_run_together_is_detected() {
    let mut ledger = Blockchain::started_at(0, 1, 100);
    assert!(ledger.mine_pending_transactions_at("Miner1".to_string(), 23));
    assert!(ledger.is_chain_valid());
    ledger.chain[1].index = 12;
    ledger.chain[1].timestamp = 3;
    assert!(!ledger.is_chain_valid());
}

#[test]
fn changing_the_number_of_transactions_is_detected() {
    let mut ledger = Blockchain::new();
    two_blocks_mined(&mut ledger);
    let copy = ledger.chain[1].transactions[0].clone();
    ledger.chain[1].transactions.push(copy);
    assert!(!ledger.is_chain_valid());
    ledger.chain[1].transactions.pop();
    assert!(ledger.is_chain_valid());
    let taken = ledger.chain[2].transactions.remove(0);
    assert!(!ledger.is_chain_valid());
    ledger.chain[2].transactions.insert(0, taken);
    assert!(ledger.is_chain_valid());
}

#[test]
fn a_resealed_block_breaks_the_link_to_its_successor() {
    let mut ledger = Blockchain::new();
    two_blocks_mined(&mut ledger);
    ledger.chain[1].transactions[0].amount = 1000;
    ledger.chain[1].hash = ledger.chain[1].calculate_hash();
    // Block 1 is sealed again, but block 2 still points at its old hash.
    assert_eq!(ledger.chain[1].hash, ledger.chain[1].calculate_hash());
    assert_ne!(ledger.chain[2].previous_hash, ledger.chain[1].hash);
    assert!(!ledger.is_chain_valid());
}

#[test]
fn a_block_that_points_elsewhere_is_detected_even_when_sealed() {
    let mut ledger = Blockchain::new();
    two_blocks_mined(&mut ledger);
    ledger.chain[2].previous_hash = ledger.chain[0].hash.clone();
    ledger.chain[2].hash = ledger.chain[2].calculate_hash();
    assert!(!ledger.is_chain_valid());
}

#[test]
fn swapping_two_blocks_is_detected() {
    let mut ledger = Blockchain::new();
    two_blocks_mined(&mut ledger);
    ledger.chain.swap(1, 2);
    assert!(!ledger.is_chain_valid());
}

#[test]
fn the_first_block_is_not_examined() {
    let mut ledger = Blockchain::new();
    ledger.chain[0].transactions[0].amount = 1_000_000;
    assert_ne!(ledger.chain[0].hash, ledger.chain[0].calculate_hash());
    assert!(ledger.is_chain_valid());
    two_blocks_mined(&mut ledger);
    assert!(ledger.is_chain_valid());
    assert_eq!(ledger.get_balance("Genesis"), Some(0));
}

#[test]
fn mining_goes_on_after_tampering() {
    let mut ledger = Blockchain::new();
    two_blocks_mined(&mut ledger);
    ledger.chain[1].transactions[0].amount = 1000;
    assert!(ledger.mine_pending_transactions("Miner3".to_string()));
    assert_eq!(ledger.chain.len(), 4);
    assert_eq!(ledger.chain[3].previous_hash, ledger.chain[2].hash);
    assert!(!ledger.is_chain_valid());
    assert_eq!(ledger.get_balance("Alice"), Some(-1000 + 10 - 5));
}
