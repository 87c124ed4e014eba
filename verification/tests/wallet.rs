use ledger::wallet::{
    address_of, build_address_payload, extract_pub_key_hash, hash_pub_key,
    strip_version_and_checksum, AddressError, Wallet, Wallets, ADDR_CHECKSUM_LEN, ADDR_VERSION,
};
use ripemd::Ripemd160;
use sha2::{Digest, Sha256};

#[test]
fn address_constants() {
    assert_eq!(ADDR_VERSION, 0);
    assert_eq!(ADDR_CHECKSUM_LEN, 4);
}

#[test]
fn key_hash_is_ripemd160_of_sha256() {
    let key = [7u8; 32];
    let expected = Ripemd160::digest(Sha256::digest(key)).to_vec();
    assert_eq!(hash_pub_key(&key), expected);
    assert_eq!(hash_pub_key(&key).len(), 20);
    assert_ne!(hash_pub_key(&key), key.to_vec());
}

#[test]
fn key_hash_of_the_empty_key() {
    // RIPEMD-160 of the SHA-256 of no bytes.
    let expected = [
        0xb4, 0x72, 0xa2, 0x66, 0xd0, 0xbd, 0x89, 0xc1, 0x37, 0x06, 0xa4, 0x13, 0x2c, 0xcf, 0xb1,
        0x6f, 0x7c, 0x3b, 0x9f, 0xcb,
    ];
    assert_eq!(hash_pub_key(&[]), expected.to_vec());
}

#[test]
fn address_payload_is_version_hash_checksum() {
    let key_hash = hash_pub_key(&[1, 2, 3]);
    let payload = build_address_payload(&key_hash);
    assert_eq!(payload.len(), 1 + 20 + 4);
    assert_eq!(payload[0], 0);
    assert_eq!(&payload[1..21], &key_hash[..]);
    let mut versioned = vec![0u8];
    versioned.extend_from_slice(&key_hash);
    let checksum = Sha256::digest(Sha256::digest(&versioned));
    assert_eq!(&payload[21..], &checksum[..4]);
}

#[test]
fn address_is_the_base58_text_of_the_payload() {
    let key = [9u8; 32];
    let payload = build_address_payload(&hash_pub_key(&key));
    assert_eq!(address_of(&key), bs58::encode(&payload).into_string());
    assert!(address_of(&key).starts_with('1'));
}

#[test]
fn address_of_the_empty_key() {
    // The well-known address of the key hash b472a266d0bd89c13706a4132ccfb16f7c3b9fcb.
    assert_eq!(address_of(&[]), "1HT7xU2Ngenf7D4yocz2SAcnNLW7rK8d4E");
}

#[test]
fn address_gives_back_the_key_hash() {
    for key in [vec![], vec![1u8], vec![0xff; 32], vec![3; 100]] {
        assert_eq!(extract_pub_key_hash(&address_of(&key)), Ok(hash_pub_key(&key)));
    }
}

#[test]
fn extract_drops_the_first_byte_and_the_last_four() {
    let raw = [9u8, 1, 2, 3, 4, 5, 6, 7];
    let address = bs58::encode(raw).into_string();
    assert_eq!(extract_pub_key_hash(&address), Ok(vec![1, 2, 3]));
    assert_eq!(strip_version_and_checksum(&raw), Some(vec![1, 2, 3]));
    assert_eq!(strip_version_and_checksum(&[1, 2, 3, 4, 5]), Some(vec![]));
    assert_eq!(strip_version_and_checksum(&[1, 2, 3, 4]), None);
    assert_eq!(strip_version_and_checksum(&[]), None);
}

#[test]
fn extract_refuses_text_that_is_not_base58() {
    assert_eq!(extract_pub_key_hash("0"), Err(AddressError::NotBase58));
    assert_eq!(extract_pub_key_hash("abcO"), Err(AddressError::NotBase58));
    assert_eq!(extract_pub_key_hash("abc def"), Err(AddressError::NotBase58));
    assert_eq!(extract_pub_key_hash("é"), Err(AddressError::NotBase58));
}

#[test]
fn extract_refuses_an_address_that_is_too_short() {
    assert_eq!(extract_pub_key_hash(""), Err(AddressError::TooShort));
    assert_eq!(extract_pub_key_hash("1111"), Err(AddressError::TooShort));
    let four = bs58::encode([1u8, 2, 3, 4]).into_string();
    assert_eq!(extract_pub_key_hash(&four), Err(AddressError::TooShort));
    let five = bs58::encode([1u8, 2, 3, 4, 5]).into_string();
    assert_eq!(extract_pub_key_hash(&five), Ok(vec![]));
}

#[test]
fn wallet_of_a_new_key_pair() {
    let document = Wallet::create_key_pair().unwrap();
    let wallet = Wallet::new(&document).unwrap();
    assert_eq!(wallet.public_key().len(), 32);
    assert_eq!(wallet.get_address(), address_of(wallet.public_key()));
    let again = Wallet::new(&document).unwrap();
    assert_eq!(again.public_key(), wallet.public_key());
    assert_eq!(again, wallet);
}

#[test]
fn key_pairs_differ() {
    let first = Wallet::create_key_pair().unwrap();
    let second = Wallet::create_key_pair().unwrap();
    assert_ne!(first, second);
}

#[test]
fn wallet_refuses_bytes_that_hold_no_key_pair() {
    assert_eq!(Wallet::new(&[]), None);
    assert_eq!(Wallet::new(&[1, 2, 3]), None);
    let mut document = Wallet::create_key_pair().unwrap();
    document.truncate(20);
    assert_eq!(Wallet::new(&document), None);
}

#[test]
fn wallet_signs_and_verifies() {
    let wallet = Wallet::new(&Wallet::create_key_pair().unwrap()).unwrap();
    let data = b"pay 30".to_vec();
    let signature = wallet.sign(&data).unwrap();
    assert_eq!(signature.len(), 64);
    assert_eq!(wallet.sign(&data), Some(signature.clone()));
    assert!(wallet.verify(&data, &signature));
    assert!(!wallet.verify(&b"pay 31".to_vec(), &signature));
    let mut forged = signature.clone();
    forged[0] ^= 1;
    assert!(!wallet.verify(&data, &forged));
    let other = Wallet::new(&Wallet::create_key_pair().unwrap()).unwrap();
    assert!(!other.verify(&data, &signature));
}

#[test]
fn wallets_start_empty() {
    let wallets = Wallets::new();
    assert_eq!(wallets.len(), 0);
    assert_eq!(wallets.get_addresses(), Vec::<String>::new());
    assert_eq!(wallets.get_wallet("anything"), None);
}

#[test]
fn wallets_keep_what_is_created() {
    let mut wallets = Wallets::new();
    let first = wallets.create_wallet().unwrap();
    let second = wallets.create_wallet().unwrap();
    assert_ne!(first, second);
    assert_eq!(wallets.len(), 2);
    assert_eq!(wallets.get_addresses(), vec![first.clone(), second.clone()]);
    let wallet = wallets.get_wallet(&first).unwrap();
    assert_eq!(wallet.get_address(), first);
    assert_eq!(wallets.get_wallet(&second).unwrap().get_address(), second);
    assert_eq!(wallets.entry_at(0).address, first);
    assert_eq!(Wallet::new(&wallets.entry_at(1).key_pair).unwrap().get_address(), second);
}

#[test]
fn new_key_pair_is_one_that_a_wallet_accepts() {
    for _ in 0..5 {
        let document = Wallet::create_key_pair().unwrap();
        assert!(Wallet::new(&document).is_some());
    }
}

#[test]
fn keeping_a_key_pair_files_it_under_its_address() {
    let mut wallets = Wallets::new();
    let first = Wallet::create_key_pair().unwrap();
    let second = Wallet::create_key_pair().unwrap();
    let first_address = Wallet::new(&first).unwrap().get_address();
    let second_address = Wallet::new(&second).unwrap().get_address();
    assert_eq!(wallets.keep_key_pair(first.clone()), Some(first_address.clone()));
    assert_eq!(wallets.keep_key_pair(second.clone()), Some(second_address.clone()));
    assert_eq!(wallets.len(), 2);
    assert_eq!(wallets.entry_at(0).address, first_address);
    assert_eq!(wallets.entry_at(0).key_pair, first);
    assert_eq!(wallets.entry_at(1).address, second_address);
    assert_eq!(wallets.entry_at(1).key_pair, second);
    assert_eq!(wallets.keep_key_pair(first.clone()), Some(first_address.clone()));
    assert_eq!(wallets.len(), 2);
    assert_eq!(wallets.get_addresses(), vec![first_address, second_address]);
}

#[test]
fn keeping_bytes_that_hold_no_key_pair_changes_nothing() {
    let mut wallets = Wallets::new();
    wallets.create_wallet().unwrap();
    let before = wallets.clone();
    assert_eq!(wallets.keep_key_pair(vec![]), None);
    assert_eq!(wallets.keep_key_pair(vec![1, 2, 3]), None);
    let mut cut = Wallet::create_key_pair().unwrap();
    cut.pop();
    assert_eq!(wallets.keep_key_pair(cut), None);
    assert_eq!(wallets, before);
}

#[test]
fn created_wallet_is_the_last_entry_and_holds_its_own_address() {
    let mut wallets = Wallets::new();
    for count in 1..=3usize {
        let address = wallets.create_wallet().unwrap();
        assert_eq!(wallets.len(), count);
        let entry = wallets.entry_at(count - 1);
        assert_eq!(entry.address, address);
        assert_eq!(Wallet::new(&entry.key_pair).unwrap().get_address(), address);
    }
}

#[test]
fn wallets_insert_replaces_the_key_pair_of_an_address() {
    let mut wallets = Wallets::new();
    let first = Wallet::create_key_pair().unwrap();
    let second = Wallet::create_key_pair().unwrap();
    wallets.insert(String::from("a"), first.clone());
    wallets.insert(String::from("b"), first.clone());
    wallets.insert(String::from("a"), second.clone());
    assert_eq!(wallets.len(), 2);
    assert_eq!(wallets.get_addresses(), vec![String::from("a"), String::from("b")]);
    assert_eq!(wallets.entry_at(0).key_pair, second);
    assert_eq!(wallets.entry_at(1).key_pair, first);
    assert_eq!(wallets.get_wallet("a"), Wallet::new(&second));
    assert_eq!(wallets.get_wallet("b"), Wallet::new(&first));
    assert_eq!(wallets.get_wallet("c"), None);
}

#[test]
fn wallets_give_no_wallet_for_a_key_pair_that_cannot_be_read() {
    let mut wallets = Wallets::new();
    wallets.insert(String::from("a"), vec![1, 2, 3]);
    assert_eq!(wallets.get_wallet("a"), None);
    assert_eq!(wallets.get_addresses(), vec![String::from("a")]);
}
