use blockchain_rust::block::{seal, Block, TARGET_HEXS};
use blockchain_rust::blockchain::Blockchain;
use blockchain_rust::errors::LedgerError;
use blockchain_rust::transaction::Transaction;
use sha2::Digest;

fn fresh_chain(address: &str) -> Blockchain {
    Blockchain::create_blockchain(String::from(address)).unwrap()
}

#[test]
fn test_blockchain() {
    let b = fresh_chain("miner");
    let mut it = b.iter();
    while let Some(item) = it.next() {
        println!("item: {:?}", item);
    }
}

#[test]
fn genesis_balance_and_height() {
    let bc = fresh_chain("A1");
    assert_eq!(bc.balance("A1"), 100);
    assert_eq!(bc.get_best_height().unwrap(), 0);
    // the genesis coinbase carries the fixed genesis memo
    let genesis = bc.get_block(&bc.get_tip_hash()).unwrap();
    assert_eq!(genesis.get_transactions()[0].vin[0].script_sig, "GENESIS_COINBASE_DATA");
}

#[test]
fn send_and_mine_moves_value() {
    let mut bc = fresh_chain("A1");
    let tx = Transaction::new_UTXO("A1", "A2", 30, &bc).unwrap();
    bc.add_block_with_tx(vec![tx]).unwrap();
    assert_eq!(bc.get_best_height().unwrap(), 1);
    assert_eq!(bc.balance("A1"), 70);
    assert_eq!(bc.balance("A2"), 30);
    // total supply is conserved
    assert_eq!(bc.balance("A1") + bc.balance("A2"), 100);
}

#[test]
fn overspend_fails_and_leaves_store_unchanged() {
    let mut bc = fresh_chain("A1");
    let r = Transaction::new_UTXO("A1", "A2", 200, &bc);
    match r {
        Err(LedgerError::InsufficientFunds(available)) => assert_eq!(available, 100),
        other => panic!("expected InsufficientFunds, got {:?}", other),
    }
    // a failed transfer builds no block and touches nothing
    assert_eq!(bc.get_best_height().unwrap(), 0);
    assert_eq!(bc.balance("A1"), 100);
    assert_eq!(bc.balance("A2"), 0);
    // spending the exact balance still works
    let tx = Transaction::new_UTXO("A1", "A2", 100, &bc).unwrap();
    bc.add_block_with_tx(vec![tx]).unwrap();
    assert_eq!(bc.balance("A1"), 0);
    assert_eq!(bc.balance("A2"), 100);
}

#[test]
fn add_block_is_idempotent() {
    let mut bc = fresh_chain("A1");
    let cbtx = Transaction::new_coinbase(String::from("A2"), String::new()).unwrap();
    let block = Block::new_block(vec![cbtx], bc.get_tip_hash(), 1).unwrap();
    bc.add_block(block.clone()).unwrap();
    let height_once = bc.get_best_height().unwrap();
    let tip_once = bc.get_tip_hash();
    let count_once = bc.get_blocks().len();
    bc.add_block(block).unwrap();
    assert_eq!(bc.get_best_height().unwrap(), height_once);
    assert_eq!(bc.get_tip_hash(), tip_once);
    assert_eq!(bc.get_blocks().len(), count_once);
    assert_eq!(height_once, 1);
    assert_eq!(count_once, 2);
}

#[test]
fn lower_blocks_are_stored_but_orphaned() {
    let mut bc = fresh_chain("A1");
    let tip_before = bc.get_tip_hash();
    let cbtx = Transaction::new_coinbase(String::from("A3"), String::new()).unwrap();
    // height 0 does not beat the current best height, so the tip stays put
    let block = Block::new_block(vec![cbtx], String::from("elsewhere"), 0).unwrap();
    bc.add_block(block).unwrap();
    assert_eq!(bc.get_tip_hash(), tip_before);
    assert_eq!(bc.get_blocks().len(), 2);
}

#[test]
fn iteration_reaches_genesis() {
    let mut bc = fresh_chain("A1");
    let tx = Transaction::new_UTXO("A1", "A2", 10, &bc).unwrap();
    bc.add_block_with_tx(vec![tx]).unwrap();
    let tx2 = Transaction::new_UTXO("A2", "A1", 5, &bc).unwrap();
    bc.add_block_with_tx(vec![tx2]).unwrap();
    let mut it = bc.iter();
    let mut last: Option<Block> = None;
    let mut count: i64 = 0;
    while let Some(b) = it.next() {
        count += 1;
        last = Some(b);
    }
    let last = last.expect("the chain holds at least the genesis block");
    assert_eq!(last.get_prev_hash(), "");
    assert_eq!(last.get_height(), 0);
    assert_eq!(count, bc.get_best_height().unwrap() + 1);
}

#[test]
fn sealed_blocks_validate() {
    let cbtx = Transaction::new_coinbase(String::from("A1"), String::new()).unwrap();
    let block = Block::new_genesis_block(cbtx).unwrap();
    assert!(block.validate());
    let hash = block.get_hash();
    assert_eq!(hash.len(), 64);
    assert!(hash.chars().take(TARGET_HEXS).all(|c| c == '0'));
}

#[test]
fn seal_meets_every_difficulty() {
    let cbtx = Transaction::new_coinbase(String::from("A1"), String::new()).unwrap();
    let txs = vec![cbtx];
    for difficulty in 0..3usize {
        let (hash, _nonce) = seal("prev", &txs, 1700000000000, difficulty).unwrap();
        assert_eq!(hash.len(), 64);
        assert!(hash.chars().take(difficulty).all(|c| c == '0'));
    }
}

#[test]
fn seal_returns_the_least_nonce() {
    let cbtx = Transaction::new_coinbase(String::from("A1"), String::new()).unwrap();
    let txs = vec![cbtx];
    let timestamp = 1700000000001u64;
    let difficulty = 1usize;
    let (hash, nonce) = seal("prev", &txs, timestamp, difficulty).unwrap();
    assert!(hash.starts_with('0'));
    // every smaller nonce misses the target, recomputed independently
    for m in 0..nonce {
        let mut buf = Vec::new();
        put_str(&mut buf, "prev");
        put_u64(&mut buf, txs.len() as u64);
        for tx in &txs {
            put_tx(&mut buf, tx);
        }
        put_u64(&mut buf, timestamp);
        put_u64(&mut buf, difficulty as u64);
        put_u64(&mut buf, m);
        let digest = sha2::Sha256::digest(&buf);
        let hex: String = digest.iter().map(|b| format!("{:02x}", b)).collect();
        assert!(!hex.starts_with('0'), "nonce {} already met the target", m);
    }
}

#[test]
fn tampered_blocks_fail_validation() {
    let bc = fresh_chain("A1");
    let genesis = bc.get_block(&bc.get_tip_hash()).unwrap();
    assert!(genesis.validate());
    // changing any sealed field invalidates the proof of work
    let mut txs = Vec::new();
    for tx in genesis.get_transactions() {
        txs.push(tx.clone());
    }
    let tampered = Block::from_parts(
        genesis.get_timestamp(),
        txs,
        genesis.get_prev_hash(),
        genesis.get_hash(),
        genesis.get_nonce().wrapping_add(1),
        genesis.get_height(),
    );
    assert!(!tampered.validate());
}

#[test]
fn cli_handle_constructs() {
    assert!(blockchain_rust::cli::Cli::new().is_ok());
}

#[test]
fn get_block_and_find_transaction() {
    let bc = fresh_chain("A1");
    let tip = bc.get_tip_hash();
    let genesis = bc.get_block(&tip).unwrap();
    assert_eq!(genesis.get_hash(), tip);
    assert_eq!(bc.get_block("no-such-hash").unwrap_err(), LedgerError::NotFound);
    let txid = genesis.get_transactions()[0].id.clone();
    let found = bc.find_transacton(&txid).unwrap();
    assert_eq!(found.id, txid);
    assert_eq!(bc.find_transacton("no-such-id").unwrap_err(), LedgerError::NotFound);
}

#[test]
fn from_parts_validates_the_store() {
    let bc = fresh_chain("A1");
    let genesis = bc.get_block(&bc.get_tip_hash()).unwrap();
    // duplicate hashes are malformed
    let dup = Blockchain::from_parts(vec![genesis.clone(), genesis.clone()], bc.get_tip_hash());
    assert_eq!(dup.unwrap_err(), LedgerError::Encoding);
    // a tip that no block carries is missing
    let missing = Blockchain::from_parts(vec![genesis.clone()], String::from("dangling"));
    assert_eq!(missing.unwrap_err(), LedgerError::NotFound);
    // an empty store takes only the empty tip
    assert!(Blockchain::from_parts(Vec::new(), String::new()).is_ok());
    let rebuilt = Blockchain::from_parts(vec![genesis], bc.get_tip_hash()).unwrap();
    assert_eq!(rebuilt.balance("A1"), 100);
}

// The canonical schema the library hashes blocks over, recomputed here with
// the sha2 crate directly: characters as little-endian code points behind a
// character count, counted transactions, then timestamp, difficulty, nonce.
fn put_u64(buf: &mut Vec<u8>, x: u64) {
    buf.extend_from_slice(&x.to_le_bytes());
}

fn put_str(buf: &mut Vec<u8>, s: &str) {
    put_u64(buf, s.chars().count() as u64);
    for c in s.chars() {
        buf.extend_from_slice(&(c as u32).to_le_bytes());
    }
}

fn put_tx(buf: &mut Vec<u8>, tx: &Transaction) {
    put_str(buf, &tx.id);
    put_u64(buf, tx.vin.len() as u64);
    for i in &tx.vin {
        put_str(buf, &i.txid);
        match i.vout {
            None => buf.push(0),
            Some(k) => {
                buf.push(1);
                put_u64(buf, k as u64);
            }
        }
        put_str(buf, &i.script_sig);
    }
    put_u64(buf, tx.vout.len() as u64);
    for o in &tx.vout {
        put_u64(buf, o.value);
        put_str(buf, &o.script_pub_key);
    }
}

#[test]
fn block_hash_matches_independent_recomputation() {
    let bc = fresh_chain("A1");
    let block = bc.get_block(&bc.get_tip_hash()).unwrap();
    let mut buf = Vec::new();
    put_str(&mut buf, &block.get_prev_hash());
    put_u64(&mut buf, block.get_transactions().len() as u64);
    for tx in block.get_transactions() {
        put_tx(&mut buf, tx);
    }
    put_u64(&mut buf, block.get_timestamp());
    put_u64(&mut buf, TARGET_HEXS as u64);
    put_u64(&mut buf, block.get_nonce());
    let digest = sha2::Sha256::digest(&buf);
    let expected: String = digest.iter().map(|b| format!("{:02x}", b)).collect();
    assert_eq!(block.get_hash(), expected);
}
