use blockchain_rust::blockchain::Blockchain;
use blockchain_rust::transaction::{Transaction, TXInput, TXOutput};

#[test]
fn transaction_test_signature() {}

#[test]
fn coinbase_defaults_its_memo() {
    let tx = Transaction::new_coinbase(String::from("X"), String::new()).unwrap();
    assert!(tx.is_coinbase());
    assert_eq!(tx.vin.len(), 1);
    assert_eq!(tx.vin[0].txid, "");
    assert_eq!(tx.vin[0].vout, None);
    assert_eq!(tx.vin[0].script_sig, "Reward to 'X'");
    assert_eq!(tx.vout.len(), 1);
    assert_eq!(tx.vout[0].value, 100);
    assert_eq!(tx.vout[0].script_pub_key, "X");
}

#[test]
fn coinbase_keeps_a_given_memo() {
    let tx = Transaction::new_coinbase(String::from("X"), String::from("hello")).unwrap();
    assert!(tx.is_coinbase());
    assert_eq!(tx.vin[0].script_sig, "hello");
}

#[test]
fn transaction_id_is_its_content_hash() {
    let tx = Transaction::new_coinbase(String::from("X"), String::new()).unwrap();
    assert_eq!(tx.hash().unwrap(), tx.id);
    assert_eq!(tx.id.len(), 64);
}

#[test]
fn unlock_checks_are_literal_equality() {
    let input = TXInput {
        txid: String::from("t"),
        vout: Some(0),
        script_sig: String::from("alice"),
    };
    assert!(input.can_unlock_output_with("alice"));
    assert!(!input.can_unlock_output_with("bob"));
    let output = TXOutput { value: 5, script_pub_key: String::from("bob") };
    assert!(output.can_be_unlock_with("bob"));
    assert!(!output.can_be_unlock_with("alice"));
}

#[test]
fn transfer_emits_change_only_when_overshooting() {
    let bc = Blockchain::create_blockchain(String::from("A1")).unwrap();
    // the single 100-value output overshoots a 30-value transfer
    let tx = Transaction::new_UTXO("A1", "A2", 30, &bc).unwrap();
    assert!(!tx.is_coinbase());
    assert_eq!(tx.vin.len(), 1);
    assert_eq!(tx.vin[0].script_sig, "A1");
    assert_eq!(tx.vout.len(), 2);
    assert_eq!(tx.vout[0].value, 30);
    assert_eq!(tx.vout[0].script_pub_key, "A2");
    assert_eq!(tx.vout[1].value, 70);
    assert_eq!(tx.vout[1].script_pub_key, "A1");
    assert_eq!(tx.hash().unwrap(), tx.id);
    // an exact spend emits no change output
    let exact = Transaction::new_UTXO("A1", "A2", 100, &bc).unwrap();
    assert_eq!(exact.vout.len(), 1);
    assert_eq!(exact.vout[0].value, 100);
}

#[test]
fn spendable_selection_reports_the_shortfall() {
    let bc = Blockchain::create_blockchain(String::from("A1")).unwrap();
    let (acc, selected) = bc.find_spendable_outputs("A1", 40);
    assert_eq!(acc, 100);
    assert_eq!(selected.len(), 1);
    assert_eq!(selected[0].index, 0);
    let (short, all) = bc.find_spendable_outputs("A1", 500);
    assert_eq!(short, 100);
    assert_eq!(all.len(), 1);
    let (none, nothing) = bc.find_spendable_outputs("nobody", 1);
    assert_eq!(none, 0);
    assert!(nothing.is_empty());
}

#[test]
fn unspent_scan_tracks_spends() {
    let mut bc = Blockchain::create_blockchain(String::from("A1")).unwrap();
    let tx = Transaction::new_UTXO("A1", "A2", 30, &bc).unwrap();
    bc.add_block_with_tx(vec![tx]).unwrap();
    // the genesis output of A1 is spent; only the change remains
    let utxos = bc.find_UTXO("A1");
    assert_eq!(utxos.len(), 1);
    assert_eq!(utxos[0].value, 70);
    let txs = bc.find_unspent_transactions("A1");
    assert_eq!(txs.len(), 1);
    let entries = bc.find_unspent_outputs_for("A2");
    assert_eq!(entries.len(), 1);
    assert_eq!(entries[0].output.value, 30);
    assert_eq!(entries[0].index, 0);
}
