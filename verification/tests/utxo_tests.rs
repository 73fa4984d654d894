use blockchain::wallet::{hash_pub_key, Wallet};
use blockchain::block::Block;
use blockchain::transaction::Transaction;
use blockchain::tx::{TXInput, TXOutput, TXOutputs};
use blockchain::utxoset::UTXOSet;

fn out(value: i32, who: &[u8]) -> TXOutput {
    TXOutput { value, pub_key_hash: who.to_vec() }
}

fn outs(list: Vec<TXOutput>) -> TXOutputs {
    TXOutputs { outputs: list }
}

fn keys(set: &UTXOSet) -> Vec<String> {
    set.get_entries().iter().map(|e| e.0.clone()).collect()
}

fn sample() -> UTXOSet {
    UTXOSet::from_utxos(vec![
        ("b".to_string(), outs(vec![out(5, b"alice"), out(3, b"bob")])),
        ("a".to_string(), outs(vec![out(4, b"alice")])),
        ("c".to_string(), outs(vec![out(6, b"alice"), out(1, b"alice")])),
    ])
}

#[test]
fn store_keeps_keys_in_byte_order() {
    let set = sample();
    assert_eq!(keys(&set), vec!["a", "b", "c"]);
    assert_eq!(set.count_transactions(), 3);
    let mut set = set;
    set.put("ab".to_string(), outs(vec![]));
    assert_eq!(keys(&set), vec!["a", "ab", "b", "c"]);
    set.remove_key("b");
    assert_eq!(keys(&set), vec!["a", "ab", "c"]);
    set.remove_key("zzz");
    assert_eq!(set.count_transactions(), 3);
    assert!(set.get("b").is_none());
    assert_eq!(set.get("c").unwrap().outputs.len(), 2);
}

#[test]
fn find_utxo_collects_outputs_in_key_order() {
    let set = sample();
    let found = set.find_UTXO(b"alice");
    let values: Vec<i32> = found.outputs.iter().map(|o| o.value).collect();
    assert_eq!(values, vec![4, 5, 6, 1]);
    assert_eq!(set.find_UTXO(b"bob").outputs.len(), 1);
    assert!(set.find_UTXO(b"carol").outputs.is_empty());
}

#[test]
fn find_spendable_outputs_stops_once_the_amount_is_reached() {
    let set = sample();
    let (acc, picked) = set.find_spendable_outputs(b"alice", 8);
    assert_eq!(acc, 9);
    assert_eq!(picked, vec![("a".to_string(), vec![0]), ("b".to_string(), vec![0])]);
    let (acc, picked) = set.find_spendable_outputs(b"alice", 100);
    assert_eq!(acc, 16);
    assert_eq!(picked.len(), 3);
    assert_eq!(picked[2], ("c".to_string(), vec![0, 1]));
    let (acc, picked) = set.find_spendable_outputs(b"alice", 0);
    assert_eq!(acc, 0);
    assert!(picked.is_empty());
}

#[test]
fn shortfall_equals_balance() {
    let set = sample();
    let balance: i32 = set.find_UTXO(b"alice").outputs.iter().map(|o| o.value).sum();
    let (acc, _) = set.find_spendable_outputs(b"alice", 1000);
    assert_eq!(acc, balance);
}

fn tx(id: &str, vin: Vec<(&str, i32)>, vout: Vec<TXOutput>) -> Transaction {
    Transaction {
        id: id.to_string(),
        vin: vin
            .into_iter()
            .map(|(t, v)| TXInput { txid: t.to_string(), vout: v, signature: vec![], pub_key: vec![0; 32] })
            .collect(),
        vout,
    }
}

#[test]
fn update_spends_inputs_and_records_outputs() {
    let mut set = sample();
    let coinbase = tx("d", vec![("", -1)], vec![out(10, b"miner")]);
    let spend = tx("e", vec![("b", 0), ("a", 0)], vec![out(9, b"bob")]);
    let block = Block::new_block_at(vec![coinbase, spend], "p".to_string(), 1, 5).unwrap();
    set.update(&block);
    assert_eq!(keys(&set), vec!["b", "c", "d", "e"]);
    let b = set.get("b").unwrap();
    assert_eq!(b.outputs.len(), 1);
    assert_eq!(b.outputs[0].value, 3);
    assert_eq!(set.get("d").unwrap().outputs[0].value, 10);
    assert_eq!(set.get("e").unwrap().outputs[0].value, 9);
    assert_eq!(set.count_transactions(), 4);
}

#[test]
fn spending_an_index_out_of_range_keeps_the_outputs() {
    let mut set = sample();
    let spend = tx("f", vec![("c", 5), ("c", -3)], vec![]);
    let block = Block::new_block_at(vec![spend], "p".to_string(), 1, 6).unwrap();
    set.update(&block);
    assert_eq!(set.get("c").unwrap().outputs.len(), 2);
    assert_eq!(set.get("f").unwrap().outputs.len(), 0);
}

#[test]
fn empty_store() {
    let set = UTXOSet::new();
    assert_eq!(set.count_transactions(), 0);
    assert!(set.find_UTXO(b"x").outputs.is_empty());
}

#[test]
fn balance_of_an_address() {
    let w = Wallet::new();
    let address = w.get_address();
    let mut key_hash = w.public_key.clone();
    hash_pub_key(&mut key_hash);
    let set = UTXOSet::from_utxos(vec![
        ("a".to_string(), outs(vec![out(4, &key_hash), out(100, b"other")])),
        ("b".to_string(), outs(vec![out(6, &key_hash)])),
    ]);
    assert_eq!(set.balance(&address), Some(10));
    assert_eq!(set.balance_checked(&address), Some(10));
    assert_eq!(set.balance_checked("not an address"), None);
    assert_eq!(set.balance_checked("bitcoincash:a5a8yrhz"), None);
    let big = UTXOSet::from_utxos(vec![("a".to_string(), outs(vec![out(i32::MAX, &key_hash), out(1, &key_hash)]))]);
    assert_eq!(big.balance_checked(&address), None);
    assert_eq!(UTXOSet::new().balance_checked(&address), Some(0));
}
