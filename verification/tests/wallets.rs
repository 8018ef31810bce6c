use blockchain_rust::wallet::{validate_address, Wallet, Wallets};
use sha2::Digest;

#[test]
fn test_create_wallet_and_hash() {
    let w1 = Wallet::new();
    println!("Bitcoin Address1: {}", w1.get_address());
    let w2 = Wallet::new();
    println!("Bitcoin Address2: {}", w2.get_address());
    assert_ne!(w1, w2);
}

#[test]
fn derived_addresses_validate() {
    let w = Wallet::new();
    assert!(validate_address(&w.get_address()));
}

#[test]
fn address_round_trip_checksum() {
    let w = Wallet::new();
    let address = w.get_address();
    // decoding recovers a payload whose trailing four bytes are the leading
    // four bytes of the double SHA-256 of the rest
    let payload = bs58::decode(&address).into_vec().unwrap();
    assert_eq!(payload.len(), 25);
    assert_eq!(payload[0], 0u8);
    let check1 = sha2::Sha256::digest(&payload[..21]);
    let check2 = sha2::Sha256::digest(check1);
    assert_eq!(&payload[21..], &check2[..4]);
    // and the whole derivation reproduces bit for bit
    let sha = sha2::Sha256::digest(w.get_public_key());
    let r160 = bitcoin_hashes::ripemd160::Hash::hash(&sha).to_byte_array();
    let mut expected = vec![0u8];
    expected.extend_from_slice(&r160);
    let c1 = sha2::Sha256::digest(&expected);
    let c2 = sha2::Sha256::digest(c1);
    expected.extend_from_slice(&c2[..4]);
    assert_eq!(bs58::encode(&expected).into_string(), address);
}

#[test]
fn public_key_is_the_verifying_key() {
    let w = Wallet::new();
    let secret: [u8; 32] = w.get_secret_key().as_slice().try_into().unwrap();
    let expected = ed25519_dalek::SigningKey::from_bytes(&secret).verifying_key();
    assert_eq!(w.get_public_key().as_slice(), expected.to_bytes().as_slice());
}

#[test]
fn malformed_addresses_fail_validation() {
    // '0' is no base58 character, so this cannot decode
    assert!(!validate_address("0OIl"));
    // "111" decodes to three zero bytes: too short to carry a checksum
    assert!(!validate_address("111"));
    assert!(!validate_address(""));
}

#[test]
fn fresh_wallets_never_collide() {
    let mut addresses: Vec<String> = Vec::new();
    for _ in 0..30 {
        let a = Wallet::new().get_address();
        assert!(!addresses.contains(&a));
        addresses.push(a);
    }
}

#[test]
fn wallet_store_keys_by_address() {
    let mut ws = Wallets::new().unwrap();
    let a1 = ws.create_wallet();
    let a2 = ws.create_wallet();
    assert_ne!(a1, a2);
    let w1 = ws.get_wallet(&a1).expect("the first wallet is stored");
    assert_eq!(w1.get_address(), a1);
    assert!(ws.get_wallet("no-such-address").is_none());
    let mut all = ws.get_all_addresses();
    all.sort();
    let mut expected = vec![a1.clone(), a2.clone()];
    expected.sort();
    assert_eq!(all, expected);
    // re-inserting under the same address replaces, never duplicates
    let w1_clone = w1.clone();
    ws.insert_wallet(w1_clone);
    assert_eq!(ws.get_all_addresses().len(), 2);
}

#[test]
fn stored_wallets_survive_a_rebuild() {
    let mut ws = Wallets::new().unwrap();
    let a1 = ws.create_wallet();
    let w1 = ws.get_wallet(&a1).unwrap().clone();
    // rebuild a collection from the persisted fields, as the storage layer does
    let mut ws2 = Wallets::new().unwrap();
    for w in ws.get_wallets() {
        ws2.insert_wallet(Wallet::from_parts(
            w.get_secret_key().clone(),
            w.get_public_key().clone(),
            w.get_address(),
        ));
    }
    let w2 = ws2.get_wallet(&a1).unwrap();
    assert_eq!(&w1, w2);
}
