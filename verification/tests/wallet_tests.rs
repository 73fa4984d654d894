use bitcoincash_addr::Address;
use blockchain::tx::TXOutput;
use blockchain::wallet::{hash_pub_key, Wallet, Wallets};
use crypto::digest::Digest;
use crypto::ed25519;
use crypto::ripemd160::Ripemd160;
use crypto::sha2::Sha256;

#[test]
fn test_create_wallet_and_hash() {
    let w1 = Wallet::new();
    let w2 = Wallet::new();
    println!("{}", w1.get_address());
    println!("{}", w2.get_address());

    let mut p2 = w2.public_key.clone();
    hash_pub_key(&mut p2);
    assert_eq!(p2.len(), 20);
    let pub_key_hash = Address::decode(&w2.get_address()).unwrap().body;
    assert_eq!(pub_key_hash, p2);
}

#[test]
#[should_panic]
fn test_wallets_not_exist() {
    let w3 = Wallet::new();
    let ws2 = Wallets::empty();
    ws2.get_wallet(&w3.get_address()).unwrap();
}

#[test]
fn test_signature() {
    let w = Wallet::new();
    let signature = ed25519::signature("test".as_bytes(), &w.secret_key);
    assert!(ed25519::verify("test".as_bytes(), &w.public_key, &signature));
}

#[test]
fn wallet_keys_have_their_sizes() {
    let w = Wallet::new();
    assert_eq!(w.public_key.len(), 32);
    assert_eq!(w.secret_key.len(), 64);
    assert_eq!(&w.secret_key[32..], &w.public_key[..]);
}

fn reference_key_hash(data: &[u8]) -> Vec<u8> {
    let mut sha = Sha256::new();
    sha.input(data);
    let mut first = vec![0u8; 32];
    sha.result(&mut first);
    let mut buffer = first.clone();
    buffer.extend_from_slice(&data[32..]);
    let mut ripemd = Ripemd160::new();
    ripemd.input(&buffer);
    let mut out = vec![0u8; 20];
    ripemd.result(&mut out);
    out
}

#[test]
fn hash_pub_key_of_a_32_byte_key() {
    let key: Vec<u8> = (0u8..32).collect();
    let mut hashed = key.clone();
    hash_pub_key(&mut hashed);
    assert_eq!(hashed.len(), 20);
    assert_eq!(hashed, reference_key_hash(&key));
    assert_ne!(hashed, key[..20].to_vec());
}

#[test]
fn hash_pub_key_keeps_the_tail_of_a_longer_buffer_in_the_hash() {
    let key: Vec<u8> = (0u8..40).collect();
    let mut hashed = key.clone();
    hash_pub_key(&mut hashed);
    assert_eq!(hashed, reference_key_hash(&key));
    let mut short = key[..32].to_vec();
    hash_pub_key(&mut short);
    assert_ne!(short, hashed);
}

#[test]
fn wallet_address_decodes_to_the_key_hash() {
    let w = Wallet::new();
    let address = w.get_address();
    let mut expected = w.public_key.clone();
    hash_pub_key(&mut expected);
    assert_eq!(TXOutput::new_checked(1, address.clone()).unwrap().pub_key_hash, expected);
    assert_eq!(Address::decode(&address).unwrap().body, expected);
    assert!(address.starts_with('3'));
}

#[test]
fn wallets_store_created_wallets() {
    let mut ws = Wallets::empty();
    assert!(ws.get_all_address().is_empty());
    let a1 = ws.create_wallet();
    let a2 = ws.create_wallet();
    assert_ne!(a1, a2);
    let w1 = ws.get_wallet(&a1).unwrap().clone();
    assert_eq!(w1.get_address(), a1);
    let mut all = ws.get_all_address();
    all.sort();
    let mut expected = vec![a1.clone(), a2.clone()];
    expected.sort();
    assert_eq!(all, expected);
    assert!(ws.get_wallet("not an address").is_none());
}

#[test]
fn wallets_insert_replaces_the_wallet_under_an_address() {
    let mut ws = Wallets::empty();
    let w1 = Wallet::new();
    let w2 = Wallet::new();
    ws.insert("addr".to_string(), w1.clone());
    ws.insert("addr".to_string(), w2.clone());
    assert_eq!(ws.get_all_address(), vec!["addr".to_string()]);
    assert_eq!(ws.get_wallet("addr"), Some(&w2));
}

#[test]
fn wallet_from_seed_is_deterministic() {
    let seed = [7u8; 32];
    let a = Wallet::from_seed(&seed);
    let b = Wallet::from_seed(&seed);
    assert_eq!(a, b);
    assert_eq!(&a.secret_key[..32], &seed[..]);
    assert_eq!(&a.secret_key[32..], &a.public_key[..]);
    let (secret, public) = ed25519::keypair(&seed);
    assert_eq!(a.public_key, public.to_vec());
    assert_eq!(a.secret_key, secret.to_vec());
    assert_ne!(Wallet::from_seed(&[8u8; 32]).public_key, a.public_key);
}
