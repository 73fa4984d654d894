use blockchain::address::has_decodable_shape;
use blockchain::block::Block;
use blockchain::cli::Cli;
use blockchain::merkle::merge_hashes;
use blockchain::transaction::Transaction;
use blockchain::tx::{TXInput, TXOutput};
use blockchain::wallet::{hash_pub_key, Wallet};
use crypto::digest::Digest;
use crypto::sha2::Sha256;

fn sha256_bytes(data: &[u8]) -> Vec<u8> {
    let mut h = Sha256::new();
    h.input(data);
    let mut out = vec![0u8; 32];
    h.result(&mut out);
    out
}

fn hex_sha256(data: &[u8]) -> String {
    let mut h = Sha256::new();
    h.input(data);
    h.result_str()
}

fn coinbase(to: &[u8], value: i32) -> Transaction {
    Transaction {
        id: "coinbase-id".to_string(),
        vin: vec![TXInput { txid: String::new(), vout: -1, signature: vec![], pub_key: b"reward".to_vec() }],
        vout: vec![TXOutput { value, pub_key_hash: to.to_vec() }],
    }
}

fn le_str(out: &mut Vec<u8>, s: &str) {
    out.extend_from_slice(&(s.len() as u64).to_le_bytes());
    out.extend_from_slice(s.as_bytes());
}

fn le_bytes(out: &mut Vec<u8>, b: &[u8]) {
    out.extend_from_slice(&(b.len() as u64).to_le_bytes());
    out.extend_from_slice(b);
}

/// The bytes of a block's hash content, laid out by hand.
fn content(prev: &str, root: &[u8], timestamp: u128, nonce: i32) -> Vec<u8> {
    let mut out = vec![];
    le_str(&mut out, prev);
    le_bytes(&mut out, root);
    out.extend_from_slice(&timestamp.to_le_bytes());
    out.extend_from_slice(&4u64.to_le_bytes());
    out.extend_from_slice(&nonce.to_le_bytes());
    out
}

/// The first hash, over nonces from 0, that starts with four zeros.
fn mine(prev: &str, root: &[u8], timestamp: u128) -> String {
    let mut nonce = 0i32;
    loop {
        let h = hex_sha256(&content(prev, root, timestamp, nonce));
        if h.starts_with("0000") {
            return h;
        }
        nonce += 1;
    }
}

#[test]
fn test_blockchain() {
    let genesis = Block::new_genesis_block(coinbase(b"miner", 10)).unwrap();
    assert_eq!(genesis.get_height(), 0);
    assert_eq!(genesis.get_prev_hash(), "");
    assert_eq!(genesis.validate(), Ok(true));
}

#[test]
fn merge_hashes_is_sha256_of_both() {
    let d = merge_hashes(&b"ab".to_vec(), &b"c".to_vec());
    let hex: String = d.iter().map(|b| format!("{:02x}", b)).collect();
    assert_eq!(hex, "ba7816bf8f01cfea414140de5dae2223b00361a396177a9cb410ff61f20015ad");
    let empty = merge_hashes(&vec![], &vec![]);
    assert_eq!(empty, sha256_bytes(b""));
}

#[test]
fn transaction_hash_is_hex_sha256_of_the_record() {
    let tx = Transaction {
        id: "ignored".to_string(),
        vin: vec![TXInput { txid: "t".to_string(), vout: 1, signature: vec![9], pub_key: vec![] }],
        vout: vec![TXOutput { value: 5, pub_key_hash: vec![1, 2] }],
    };
    let mut expected: Vec<u8> = vec![];
    le_str(&mut expected, "");
    expected.extend_from_slice(&1u64.to_le_bytes());
    le_str(&mut expected, "t");
    expected.extend_from_slice(&1i32.to_le_bytes());
    le_bytes(&mut expected, &[9]);
    le_bytes(&mut expected, &[]);
    expected.extend_from_slice(&1u64.to_le_bytes());
    expected.extend_from_slice(&5i32.to_le_bytes());
    le_bytes(&mut expected, &[1, 2]);
    let h = tx.hash().unwrap();
    assert_eq!(h, hex_sha256(&expected));
    assert_eq!(h.len(), 64);
    assert!(h.chars().all(|c| c.is_ascii_digit() || ('a'..='f').contains(&c)));
}

#[test]
fn transaction_hash_ignores_the_id() {
    let tx = coinbase(b"miner", 10);
    let mut other = tx.clone();
    other.id = "something else".to_string();
    let h = tx.hash().unwrap();
    assert_eq!(h, other.hash().unwrap());
    let mut richer = tx.clone();
    richer.vout[0].value = 11;
    assert_ne!(richer.hash().unwrap(), h);
}

#[test]
fn coinbase_is_recognised() {
    let tx = coinbase(b"miner", 10);
    assert!(tx.is_coinbase());
    let mut spend = tx.clone();
    spend.vin[0].txid = "abc".to_string();
    assert!(!spend.is_coinbase());
    let mut other_index = tx.clone();
    other_index.vin[0].vout = 0;
    assert!(!other_index.is_coinbase());
    let mut two_inputs = tx.clone();
    two_inputs.vin.push(tx.vin[0].clone());
    assert!(!two_inputs.is_coinbase());
}

#[test]
fn block_with_one_transaction_is_mined_to_the_target() {
    let txs = vec![coinbase(b"miner", 10)];
    let leaf = txs[0].hash().unwrap().into_bytes();
    let block = Block::new_block_at(txs, "prev".to_string(), 3, 1_700_000_000_000).unwrap();
    assert_eq!(block.get_height(), 3);
    assert_eq!(block.get_prev_hash(), "prev");
    assert_eq!(block.get_transaction().len(), 1);
    assert!(block.get_hash().starts_with("0000"));
    assert_eq!(block.validate(), Ok(true));
    assert_eq!(block.get_hash(), mine("prev", &leaf, 1_700_000_000_000));
    let again = Block::new_block_at(vec![coinbase(b"miner", 10)], "prev".to_string(), 3, 1_700_000_000_000).unwrap();
    assert_eq!(again.get_hash(), block.get_hash());
    let copy = block.clone();
    assert_eq!(copy.get_hash(), block.get_hash());
}

#[test]
fn block_hashes_the_merkle_root_of_its_transactions() {
    let txs = vec![coinbase(b"a", 1), coinbase(b"b", 2), coinbase(b"c", 3)];
    let leaves: Vec<Vec<u8>> = txs.iter().map(|t| t.hash().unwrap().into_bytes()).collect();
    let inner = sha256_bytes(&[leaves[1].clone(), leaves[2].clone()].concat());
    let root = sha256_bytes(&[inner, leaves[0].clone()].concat());
    let block = Block::new_block_at(txs, String::new(), 1, 42).unwrap();
    assert_eq!(block.get_hash(), mine("", &root, 42));
}

#[test]
fn block_with_no_transactions_hashes_an_empty_root() {
    let block = Block::new_block_at(vec![], "x".to_string(), 2, 7).unwrap();
    assert_eq!(block.get_hash(), mine("x", &[], 7));
}

#[test]
fn new_block_uses_the_clock() {
    let block = Block::new_block(vec![coinbase(b"miner", 1)], "p".to_string(), 1).unwrap();
    assert!(block.get_hash().starts_with("0000"));
    assert_eq!(block.validate(), Ok(true));
}

#[test]
fn outputs_lock_to_addresses() {
    let w = Wallet::new();
    let address = w.get_address();
    let out = TXOutput::new(7, address.clone()).unwrap();
    let mut key_hash = w.public_key.clone();
    hash_pub_key(&mut key_hash);
    assert_eq!(out.value, 7);
    assert_eq!(out.pub_key_hash, key_hash);
    assert!(out.can_be_unlock_with(&key_hash));
    assert!(!out.can_be_unlock_with(b"someone else"));
    let input = TXInput { txid: "t".to_string(), vout: 0, signature: vec![], pub_key: w.public_key.clone() };
    assert!(input.can_unlock_output_with(&out.pub_key_hash));
    assert!(!input.can_unlock_output_with(b"nope"));
    assert!(TXOutput::new_checked(7, "not an address".to_string()).is_none());
    assert_eq!(TXOutput::new_checked(7, address).unwrap().pub_key_hash, key_hash);
}

#[test]
fn cli_new_succeeds() {
    assert!(Cli::new().is_ok());
}

#[test]
fn short_cashaddr_payload_is_refused_without_panic() {
    assert!(TXOutput::new_checked(1, "bitcoincash:a5a8yrhz".to_string()).is_none());
    assert!(TXOutput::new_checked(1, "bitcoincash:".to_string()).is_none());
    assert!(TXOutput::new_checked(1, "a:b:c".to_string()).is_none());
    let valid = "bitcoincash:qr6m7j9njldwwzlg9v7v53unlr4jkmx6eylep8ekg2".to_string();
    let out = TXOutput::new_checked(1, valid).unwrap();
    let hex: String = out.pub_key_hash.iter().map(|b| format!("{:02x}", b)).collect();
    assert_eq!(hex, "f5bf48b397dae70be82b3cca4793f8eb2b6cdac9");
}

#[test]
fn decodable_shape_cases() {
    assert!(!has_decodable_shape("bitcoincash:a5a8yrhz"));
    assert!(!has_decodable_shape(":"));
    assert!(has_decodable_shape("a:b:c"));
    assert!(has_decodable_shape("no colon at all"));
    assert!(has_decodable_shape("x:0123456789"));
    assert!(!has_decodable_shape("x:012345678"));
}
