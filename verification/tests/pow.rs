use ledger::block::Block;
use ledger::pow::{
    has_leading_zero_bits, hash_block, hash_transactions, hash_with_nonce, pow, pow_with_target,
    seal_content, validate_hash, TARGET_BITS,
};
use ledger::transaction::{TXInput, TXOutput, Transaction};
use sha2::{Digest, Sha256};

fn hash_with_first_byte(first: u8) -> [u8; 32] {
    let mut hash = [0xffu8; 32];
    hash[0] = first;
    hash
}

fn sample_transactions() -> Vec<Transaction> {
    vec![
        Transaction {
            id: [1; 32],
            v_in: vec![TXInput { tx_id: None, v_out_idx: None, signature: None, pub_key: vec![1] }],
            v_out: vec![TXOutput { value: 50, pub_key_hash: vec![2; 20] }],
        },
        Transaction { id: [2; 32], v_in: vec![], v_out: vec![] },
    ]
}

#[test]
fn target_is_one_bit() {
    assert_eq!(TARGET_BITS, 1);
}

#[test]
fn validate_hash_looks_at_the_first_bit() {
    assert!(validate_hash(&[0u8; 32]));
    assert!(validate_hash(&hash_with_first_byte(0x7f)));
    assert!(validate_hash(&hash_with_first_byte(0x00)));
    assert!(!validate_hash(&hash_with_first_byte(0x80)));
    assert!(!validate_hash(&hash_with_first_byte(0xff)));
}

#[test]
fn zero_bits_are_always_there() {
    assert!(has_leading_zero_bits(&[0xff; 32], 0));
    assert!(has_leading_zero_bits(&[0; 32], 0));
}

#[test]
fn leading_zero_bits_inside_the_first_byte() {
    let hash = hash_with_first_byte(0b0001_0000);
    assert!(has_leading_zero_bits(&hash, 1));
    assert!(has_leading_zero_bits(&hash, 2));
    assert!(has_leading_zero_bits(&hash, 3));
    assert!(!has_leading_zero_bits(&hash, 4));
    assert!(!has_leading_zero_bits(&hash, 8));
    assert!(!has_leading_zero_bits(&hash, 9));
}

#[test]
fn leading_zero_bits_across_bytes() {
    let mut hash = [0xffu8; 32];
    hash[0] = 0;
    hash[1] = 0;
    hash[2] = 0b0000_0111;
    assert!(has_leading_zero_bits(&hash, 8));
    assert!(has_leading_zero_bits(&hash, 16));
    assert!(has_leading_zero_bits(&hash, 21));
    assert!(!has_leading_zero_bits(&hash, 22));
    assert!(!has_leading_zero_bits(&hash, 24));
    assert!(!has_leading_zero_bits(&hash, 256));
}

#[test]
fn all_bits_zero_only_for_the_zero_hash() {
    assert!(has_leading_zero_bits(&[0; 32], 256));
    assert!(has_leading_zero_bits(&[0; 32], 255));
    let mut hash = [0u8; 32];
    hash[31] = 1;
    assert!(has_leading_zero_bits(&hash, 255));
    assert!(!has_leading_zero_bits(&hash, 256));
}

#[test]
fn transactions_digest_is_the_hash_of_the_ids() {
    let transactions = sample_transactions();
    let mut ids = Vec::new();
    ids.extend_from_slice(&[1u8; 32]);
    ids.extend_from_slice(&[2u8; 32]);
    let expected: [u8; 32] = Sha256::digest(&ids).into();
    assert_eq!(hash_transactions(&transactions), expected);
    let of_nothing: [u8; 32] = Sha256::digest([]).into();
    assert_eq!(hash_transactions(&Vec::new()), of_nothing);
}

#[test]
fn block_hash_is_the_hash_of_time_digest_previous_and_nonce() {
    let transactions = sample_transactions();
    let prev = Some([5u8; 32]);
    let mut content = b"1700000000123".to_vec();
    content.extend_from_slice(&hash_transactions(&transactions));
    content.extend_from_slice(&[5u8; 32]);
    assert_eq!(seal_content(1_700_000_000_123, &transactions, &prev), content);
    content.extend_from_slice(&77u64.to_le_bytes());
    let expected: [u8; 32] = Sha256::digest(&content).into();
    assert_eq!(hash_block(1_700_000_000_123, &transactions, &prev, 77), expected);
}

#[test]
fn block_hash_without_previous_block() {
    let transactions = sample_transactions();
    let mut content = b"42".to_vec();
    content.extend_from_slice(&hash_transactions(&transactions));
    assert_eq!(seal_content(42, &transactions, &None), content);
    let with_nonce = hash_with_nonce(&content, 1);
    content.extend_from_slice(&[1, 0, 0, 0, 0, 0, 0, 0]);
    let expected: [u8; 32] = Sha256::digest(&content).into();
    assert_eq!(with_nonce, expected);
    assert_eq!(hash_block(42, &transactions, &None, 1), expected);
}

#[test]
fn pow_finds_a_valid_hash_that_hashing_again_reproduces() {
    let transactions = sample_transactions();
    for timestamp in [0u128, 1, 1_700_000_000_123, u128::MAX] {
        let (hash, nonce) = pow(timestamp, &transactions, &Some([3; 32])).unwrap();
        assert!(nonce >= 1);
        assert!(validate_hash(&hash));
        assert_eq!(hash_block(timestamp, &transactions, &Some([3; 32]), nonce), hash);
    }
}

#[test]
fn pow_returns_the_first_nonce_that_fits() {
    let transactions = sample_transactions();
    for bits in [0u16, 1, 4, 8, 10] {
        let (hash, nonce) = pow_with_target(99, &transactions, &None, bits).unwrap();
        assert!(has_leading_zero_bits(&hash, bits));
        assert_eq!(hash_block(99, &transactions, &None, nonce), hash);
        for earlier in 1..nonce {
            let other = hash_block(99, &transactions, &None, earlier);
            assert!(!has_leading_zero_bits(&other, bits));
        }
    }
}

#[test]
fn pow_with_no_target_takes_the_first_nonce() {
    let (_, nonce) = pow_with_target(5, &Vec::new(), &None, 0).unwrap();
    assert_eq!(nonce, 1);
}

#[test]
fn pow_is_repeatable() {
    let transactions = sample_transactions();
    let first = pow(123, &transactions, &None);
    let second = pow(123, &transactions, &None);
    assert_eq!(first, second);
}

#[test]
fn new_block_is_sealed() {
    let block = Block::new_at(1_000, sample_transactions(), Some([8; 32])).unwrap();
    assert_eq!(block.timestamp, 1_000);
    assert_eq!(block.transactions, sample_transactions());
    assert_eq!(block.prev_block_hash, Some([8; 32]));
    assert!(block.is_sealed());
    let (hash, nonce) = pow(1_000, &sample_transactions(), &Some([8; 32])).unwrap();
    assert_eq!(block.hash, hash);
    assert_eq!(block.nonce, nonce);
}

#[test]
fn changed_block_is_not_sealed() {
    let block = Block::new(sample_transactions(), None).unwrap();
    assert!(block.is_sealed());
    let mut other_nonce = block.clone();
    other_nonce.nonce += 1;
    assert!(!other_nonce.is_sealed());
    let mut other_time = block.clone();
    other_time.timestamp += 1;
    assert!(!other_time.is_sealed());
    let mut other_content = block.clone();
    other_content.transactions.pop();
    assert!(!other_content.is_sealed());
    let mut other_hash = block;
    other_hash.hash = [0; 32];
    assert!(!other_hash.is_sealed());
}

#[test]
fn genesis_block_names_no_previous_block() {
    let coinbase = sample_transactions().remove(0);
    let genesis = Block::new_genesis_block(coinbase.clone()).unwrap();
    assert_eq!(genesis.prev_block_hash, None);
    assert_eq!(genesis.transactions, vec![coinbase]);
    assert!(genesis.is_sealed());
}

#[test]
fn block_text_lists_its_parts() {
    let block = Block {
        timestamp: 1234,
        transactions: sample_transactions(),
        prev_block_hash: None,
        hash: [0xab; 32],
        nonce: 1,
    };
    let id_one = "0x0101010101010101010101010101010101010101010101010101010101010101";
    let id_two = "0x0202020202020202020202020202020202020202020202020202020202020202";
    let hash = "0xabababababababababababababababababababababababababababababababab";
    let expected = format!(
        "timestamp: 1234\nprevious block hash: None\ntransactions: \n\t{}\t{}\nhash: {}",
        id_one, id_two, hash
    );
    assert_eq!(block.to_text(), expected);
    let linked = Block { prev_block_hash: Some([1; 32]), transactions: vec![], ..block };
    let expected = format!(
        "timestamp: 1234\nprevious block hash: {}\ntransactions: \n\nhash: {}",
        id_one, hash
    );
    assert_eq!(linked.to_text(), expected);
}
