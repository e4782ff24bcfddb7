use pow_ledger::block::{meets_difficulty, Block};
use pow_ledger::blockchain::{Blockchain, FEES_SENDER, MINING_REWARD, REWARD_SENDER};
use pow_ledger::text::{push_amount, push_decimal, push_signed_decimal, UNITS_PER_COIN};
use pow_ledger::transaction::{push_list, Transaction};
use pow_ledger::wallet::Wallet;
use sha2::Digest;

fn amount(units: u64, point_zero: bool) -> String {
    let mut s = String::new();
    push_amount(&mut s, units, point_zero);
    s
}

fn sha_hex(text: &str) -> String {
    hex::encode(sha2::Sha256::digest(text.as_bytes()))
}

#[test]
fn decimal_rendering() {
    let mut s = String::new();
    push_decimal(&mut s, 0);
    push_decimal(&mut s, 1234567890);
    assert_eq!(s, "01234567890");
    let mut t = String::new();
    push_decimal(&mut t, u64::MAX);
    assert_eq!(t, "18446744073709551615");
}

#[test]
fn signed_decimal_rendering() {
    let mut s = String::new();
    push_signed_decimal(&mut s, -42);
    assert_eq!(s, "-42");
    let mut t = String::new();
    push_signed_decimal(&mut t, i64::MIN);
    assert_eq!(t, "-9223372036854775808");
    let mut u = String::new();
    push_signed_decimal(&mut u, 1700000000);
    assert_eq!(u, "1700000000");
}

#[test]
fn amount_rendering() {
    assert_eq!(amount(625_000_000, true), "6.25");
    assert_eq!(amount(625_000_000, false), "6.25");
    assert_eq!(amount(100_000_000, true), "1.0");
    assert_eq!(amount(100_000_000, false), "1");
    assert_eq!(amount(0, true), "0.0");
    assert_eq!(amount(0, false), "0");
    assert_eq!(amount(1, false), "0.00000001");
    assert_eq!(amount(3_000_000, true), "0.03");
    assert_eq!(amount(1_050_000_000, false), "10.5");
    assert_eq!(UNITS_PER_COIN, 100_000_000);
}

#[test]
fn transaction_new_has_empty_signature() {
    let t = Transaction::new("alice", "bob", 5, 1);
    assert_eq!(t.sender, "alice");
    assert_eq!(t.receiver, "bob");
    assert_eq!(t.amount, 5);
    assert_eq!(t.fee, 1);
    assert_eq!(t.signature, "");
}

#[test]
fn transaction_digest_input_and_hash() {
    let t = Transaction::new("a", "b", 100_000_000, 1_000_000);
    assert_eq!(t.digest_input(), "ab10.01");
    let expected = sha2::Sha256::digest(b"ab10.01").to_vec();
    assert_eq!(t.hash(), expected);
    assert_eq!(t.hash().len(), 32);
}

#[test]
fn transaction_list_text() {
    let mut s = String::new();
    push_list(&Vec::new(), &mut s);
    assert_eq!(s, "[]");
    let mut t = Transaction::new("a", "b", 100_000_000, 1_000_000);
    t.signature = "ff".to_string();
    let u = Transaction::new("System", "m", 625_000_000, 0);
    let mut out = String::new();
    push_list(&vec![t, u], &mut out);
    assert_eq!(
        out,
        "[Transaction { sender: \"a\", receiver: \"b\", amount: 1.0, fee: 0.01, signature: \"ff\" }, \
         Transaction { sender: \"System\", receiver: \"m\", amount: 6.25, fee: 0.0, signature: \"\" }]"
    );
}

#[test]
fn block_header_and_hash() {
    let tx = Transaction::new("a", "b", 100_000_000, 1_000_000);
    let b = Block::with_timestamp(1, vec![tx], "abc".to_string(), 7, 1700000000);
    assert_eq!(b.hash, "");
    let header = b.header();
    assert_eq!(
        header,
        "11700000000[Transaction { sender: \"a\", receiver: \"b\", amount: 1.0, fee: 0.01, signature: \"\" }]abc7"
    );
    assert_eq!(b.calculate_hash(), sha_hex(&header));
    assert_eq!(b.calculate_hash().len(), 64);
}

#[test]
fn difficulty_prefix_check() {
    assert!(meets_difficulty("00ab", 2));
    assert!(!meets_difficulty("0a0b", 2));
    assert!(!meets_difficulty("0", 2));
    assert!(meets_difficulty("abc", 0));
    assert!(meets_difficulty("000", 3));
}

#[test]
fn mining_finds_least_nonce() {
    let mut b = Block::with_timestamp(3, Vec::new(), "prev".to_string(), 0, 1234);
    assert!(b.mine_block(2));
    assert!(b.hash.starts_with("00"));
    assert_eq!(b.hash, b.calculate_hash());
    let found = b.nonce;
    for n in 0..found {
        let c = Block::with_timestamp(3, Vec::new(), "prev".to_string(), n, 1234);
        assert!(!c.calculate_hash().starts_with("00"));
    }
}

#[test]
fn mined_blocks_meet_difficulty() {
    let mut chain = Blockchain::new(2);
    assert!(chain.chain[0].hash.starts_with("00"));
    assert!(chain.mine_pending_transactions("m"));
    assert!(chain.chain[1].hash.starts_with("00"));
    chain.difficulty = 1;
    let txs = vec![Transaction::new("a", "b", 1, 0)];
    assert!(chain.add_block(txs));
    assert!(chain.chain[2].hash.starts_with("0"));
    assert_eq!(chain.chain[2].index, 2);
    assert_eq!(chain.chain[2].previous_hash, chain.chain[1].hash);
}

#[test]
fn genesis_block_shape() {
    let chain = Blockchain::with_time(1, 500);
    assert_eq!(chain.chain.len(), 1);
    let g = &chain.chain[0];
    assert_eq!(g.index, 0);
    assert_eq!(g.timestamp, 500);
    assert!(g.transactions.is_empty());
    assert_eq!(g.previous_hash, "0");
    assert!(g.hash.starts_with("0"));
    assert_eq!(g.hash, g.calculate_hash());
    assert!(chain.mempool.is_empty());
    assert_eq!(chain.difficulty, 1);
    assert_eq!(chain.last_mined_time, 500);
}

#[test]
fn valid_after_construction_and_growth() {
    let mut chain = Blockchain::new(1);
    assert!(chain.is_valid());
    chain.mine_pending_transactions("m");
    assert!(chain.is_valid());
    chain.difficulty = 1;
    chain.add_block(vec![Transaction::new("x", "y", 3, 0)]);
    assert!(chain.is_valid());
    chain.difficulty = 1;
    chain.submit(Transaction::new("x", "y", 3, 1));
    chain.mine_pending_transactions("m");
    assert!(chain.is_valid());
}

fn grown_chain() -> Blockchain {
    let mut chain = Blockchain::new(1);
    chain.submit(Transaction::new("x", "y", 3, 1));
    chain.mine_pending_transactions("m");
    chain.difficulty = 1;
    chain.mine_pending_transactions("m");
    assert!(chain.is_valid());
    chain
}

#[test]
fn tampered_nonce_is_detected() {
    let mut chain = grown_chain();
    chain.chain[1].nonce += 1;
    assert!(!chain.is_valid());
}

#[test]
fn tampered_transactions_are_detected() {
    let mut chain = grown_chain();
    chain.chain[1].transactions[1].amount = 300;
    assert!(!chain.is_valid());
}

#[test]
fn tampered_previous_hash_is_detected() {
    let mut chain = grown_chain();
    chain.chain[2].previous_hash = "0".repeat(64);
    assert!(!chain.is_valid());
}

#[test]
fn genesis_balances_are_zero() {
    let chain = Blockchain::new(1);
    assert_eq!(chain.get_balance("anyone"), 0);
    assert_eq!(chain.get_balance("0"), 0);
    assert_eq!(chain.get_balance(REWARD_SENDER), 0);
    assert_eq!(chain.get_balance(""), 0);
}

#[test]
fn mining_empty_pool_pays_reward() {
    let mut chain = Blockchain::new(1);
    let before = chain.get_balance("M");
    assert!(chain.mine_pending_transactions("M"));
    assert_eq!(chain.get_balance("M"), before + 625_000_000);
    assert_eq!(MINING_REWARD, 625_000_000);
    assert_eq!(chain.get_balance(REWARD_SENDER), -625_000_000);
    let block = chain.chain.last().unwrap();
    assert_eq!(block.transactions.len(), 1);
    assert_eq!(block.transactions[0], Transaction::new("System", "M", 625_000_000, 0));
}

#[test]
fn pool_drains_most_recent_first() {
    let mut chain = Blockchain::new(1);
    let t1 = Transaction::new("A", "B", 100_000_000, 1_000_000);
    let t2 = Transaction::new("A", "C", 200_000_000, 2_000_000);
    chain.submit(t1.clone());
    chain.submit(t2.clone());
    assert!(chain.mine_pending_transactions("M"));
    assert!(chain.mempool.is_empty());
    let block = chain.chain.last().unwrap();
    assert_eq!(
        block.transactions,
        vec![
            Transaction::new(REWARD_SENDER, "M", 625_000_000, 0),
            t2,
            t1,
            Transaction::new(FEES_SENDER, "M", 3_000_000, 0),
        ]
    );
    assert_eq!(chain.get_balance("M"), 628_000_000);
    assert_eq!(chain.get_balance("A"), -300_000_000);
}

#[test]
fn retarget_examples() {
    let mut chain = Blockchain::with_time(2, 1000);
    chain.adjust_difficulty_at(1005);
    assert_eq!(chain.difficulty, 3);
    assert_eq!(chain.last_mined_time, 1005);
    let mut slow = Blockchain::with_time(3, 1000);
    slow.adjust_difficulty_at(1025);
    assert_eq!(slow.difficulty, 2);
    assert_eq!(slow.last_mined_time, 1025);
}

#[test]
fn retarget_edges() {
    let mut floor = Blockchain::with_time(1, 1000);
    floor.adjust_difficulty_at(5000);
    assert_eq!(floor.difficulty, 1);
    let mut steady = Blockchain::with_time(2, 1000);
    steady.adjust_difficulty_at(1015);
    assert_eq!(steady.difficulty, 2);
    steady.adjust_difficulty_at(1025);
    assert_eq!(steady.difficulty, 2);
    steady.adjust_difficulty_at(1035);
    assert_eq!(steady.difficulty, 2);
    steady.adjust_difficulty_at(1056);
    assert_eq!(steady.difficulty, 1);
    steady.adjust_difficulty_at(1000);
    assert_eq!(steady.difficulty, 2);
    let mut top = Blockchain::with_time(1, 0);
    top.difficulty = u32::MAX;
    top.adjust_difficulty_at(1);
    assert_eq!(top.difficulty, u32::MAX);
}

#[test]
fn pending_transactions_do_not_move_balances() {
    let mut chain = Blockchain::new(1);
    chain.mine_pending_transactions("S");
    let s = chain.get_balance("S");
    let r = chain.get_balance("R");
    chain.submit(Transaction::new("S", "R", 100_000_000, 1_000_000));
    assert_eq!(chain.get_balance("S"), s);
    assert_eq!(chain.get_balance("R"), r);
    assert_eq!(chain.mempool.len(), 1);
}

#[test]
fn self_transfer_nets_zero() {
    let mut chain = Blockchain::new(1);
    chain.add_block(vec![Transaction::new("Z", "Z", 500, 0)]);
    assert_eq!(chain.get_balance("Z"), 0);
}

#[test]
fn wallet_address_and_signature() {
    let w = Wallet::new(true);
    assert!(w.is_miner);
    let addr = w.address();
    assert_eq!(addr.len(), 66);
    assert_eq!(addr, hex::encode(w.public_key()));
    let data = b"payload";
    let sig = w.sign(data);
    let secp = secp256k1::Secp256k1::new();
    let digest: [u8; 32] = sha2::Sha256::digest(data).into();
    let msg = secp256k1::Message::from_digest(digest);
    let pk = secp256k1::PublicKey::from_slice(w.public_key()).unwrap();
    assert!(secp.verify_ecdsa(&msg, &sig, &pk).is_ok());
}

#[test]
fn send_money_without_funds_fails() {
    let alice = Wallet::new(false);
    let bob = Wallet::new(false);
    let mut chain = Blockchain::new(1);
    let r = alice.send_money(&bob, 100_000_000, &mut chain);
    assert_eq!(
        r,
        Err(format!("Address: {} does not have enough funds", alice.address()))
    );
    assert!(chain.mempool.is_empty());
}

#[test]
fn send_money_submits_signed_transaction() {
    let alice = Wallet::new(false);
    let bob = Wallet::new(false);
    let mut chain = Blockchain::new(1);
    chain.mine_pending_transactions(&alice.address());
    assert_eq!(alice.send_money(&bob, 100_000_000, &mut chain), Ok(()));
    assert_eq!(chain.mempool.len(), 1);
    let tx = &chain.mempool[0];
    assert_eq!(tx.sender, alice.address());
    assert_eq!(tx.receiver, bob.address());
    assert_eq!(tx.amount, 100_000_000);
    assert_eq!(tx.fee, 1_000_000);
    assert!(!tx.signature.is_empty());
    assert!(hex::decode(&tx.signature).is_ok());
    let der = hex::decode(&tx.signature).unwrap();
    let sig = secp256k1::ecdsa::Signature::from_der(&der).unwrap();
    let secp = secp256k1::Secp256k1::new();
    let digest: [u8; 32] = sha2::Sha256::digest(&tx.hash()).into();
    let pk = secp256k1::PublicKey::from_slice(alice.public_key()).unwrap();
    assert!(secp
        .verify_ecdsa(&secp256k1::Message::from_digest(digest), &sig, &pk)
        .is_ok());
    assert_eq!(chain.get_balance(&alice.address()), 625_000_000);
    assert_eq!(chain.get_balance(&bob.address()), 0);
    chain.difficulty = 1;
    chain.mine_pending_transactions("miner");
    assert_eq!(chain.get_balance(&alice.address()), 525_000_000);
    assert_eq!(chain.get_balance(&bob.address()), 100_000_000);
    assert_eq!(chain.get_balance("miner"), 626_000_000);
}

#[test]
fn send_money_needs_amount_plus_fee() {
    let alice = Wallet::new(false);
    let bob = Wallet::new(false);
    let mut chain = Blockchain::new(1);
    chain.mine_pending_transactions(&alice.address());
    assert!(alice.send_money(&bob, 625_000_000, &mut chain).is_err());
    assert!(alice.send_money(&bob, 618_811_881, &mut chain).is_ok());
    assert!(alice.send_money(&bob, 618_811_881, &mut chain).is_ok());
    assert_eq!(chain.mempool.len(), 2);
}

#[test]
fn record_text_escapes_quotes_and_backslashes() {
    let t = Transaction::new("q\"\\", "r", 0, 0);
    let mut out = String::new();
    push_list(&vec![t], &mut out);
    assert_eq!(
        out,
        "[Transaction { sender: \"q\\\"\\\\\", receiver: \"r\", amount: 0.0, fee: 0.0, signature: \"\" }]"
    );
}

#[test]
fn shifted_fields_are_detected() {
    let mut chain = Blockchain::new(1);
    assert!(chain.add_block(vec![Transaction::new("a\", receiver: \"b", "c", 5, 0)]));
    assert!(chain.is_valid());
    chain.chain[1].transactions[0] = Transaction::new("a", "b\", receiver: \"c", 5, 0);
    assert!(!chain.is_valid());
}
