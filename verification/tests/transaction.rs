use ledger::transaction::{hash_transaction, TXInput, TXOutput, Transaction, SUBSIDY};
use ledger::wallet::{address_of, hash_pub_key, AddressError};
use sha2::{Digest, Sha256};

type InputParts = (Option<[u8; 32]>, Option<usize>, Option<Vec<u8>>, Vec<u8>);

fn coinbase_like_input() -> TXInput {
    TXInput { tx_id: None, v_out_idx: None, signature: None, pub_key: b"memo".to_vec() }
}

fn spending_input() -> TXInput {
    TXInput {
        tx_id: Some([4; 32]),
        v_out_idx: Some(1),
        signature: Some(vec![1, 2]),
        pub_key: vec![9; 32],
    }
}

fn with_inputs(v_in: Vec<TXInput>) -> Transaction {
    Transaction { id: [0; 32], v_in, v_out: vec![] }
}

#[test]
fn subsidy_is_fifty() {
    assert_eq!(SUBSIDY, 50);
}

#[test]
fn coinbase_has_one_input_without_reference() {
    assert!(with_inputs(vec![coinbase_like_input()]).is_coinbase_tx());
}

#[test]
fn single_spending_input_is_no_coinbase() {
    assert!(!with_inputs(vec![spending_input()]).is_coinbase_tx());
}

#[test]
fn other_shapes_are_no_coinbase() {
    assert!(!with_inputs(vec![]).is_coinbase_tx());
    assert!(!with_inputs(vec![coinbase_like_input(), coinbase_like_input()]).is_coinbase_tx());
    assert!(!with_inputs(vec![coinbase_like_input(), spending_input()]).is_coinbase_tx());
    assert!(!with_inputs(vec![spending_input(), coinbase_like_input()]).is_coinbase_tx());
}

#[test]
fn coinbase_test_looks_only_at_the_referenced_id() {
    let odd = TXInput { tx_id: None, v_out_idx: Some(3), signature: None, pub_key: vec![] };
    assert!(with_inputs(vec![odd]).is_coinbase_tx());
    let other = TXInput { tx_id: Some([1; 32]), v_out_idx: None, signature: None, pub_key: vec![] };
    assert!(!with_inputs(vec![other]).is_coinbase_tx());
}

#[test]
fn transaction_id_is_the_hash_of_inputs_then_outputs() {
    let inputs = vec![spending_input(), coinbase_like_input()];
    let outputs = vec![TXOutput { value: 30, pub_key_hash: vec![7; 20] }];
    let config = bincode::config::standard();
    let input_parts: Vec<InputParts> = inputs
        .iter()
        .map(|i| (i.tx_id, i.v_out_idx, i.signature.clone(), i.pub_key.clone()))
        .collect();
    let output_parts: Vec<(u64, Vec<u8>)> =
        outputs.iter().map(|o| (o.value, o.pub_key_hash.clone())).collect();
    let mut hasher = Sha256::new();
    hasher.update(bincode::encode_to_vec(&input_parts, config).unwrap());
    hasher.update(bincode::encode_to_vec(&output_parts, config).unwrap());
    let expected: [u8; 32] = hasher.finalize().into();
    assert_eq!(hash_transaction(&inputs, &outputs), expected);
}

#[test]
fn equal_content_gives_equal_ids() {
    let first = hash_transaction(
        &vec![spending_input()],
        &vec![TXOutput { value: 1, pub_key_hash: vec![1, 2, 3] }],
    );
    let second = hash_transaction(
        &vec![TXInput {
            tx_id: Some([4; 32]),
            v_out_idx: Some(1),
            signature: Some(vec![1, 2]),
            pub_key: vec![9; 32],
        }],
        &vec![TXOutput { value: 1, pub_key_hash: vec![1, 2, 3] }],
    );
    assert_eq!(first, second);
}

#[test]
fn different_content_gives_different_ids() {
    let base = hash_transaction(&vec![spending_input()], &vec![]);
    let mut changed = spending_input();
    changed.v_out_idx = Some(2);
    assert_ne!(hash_transaction(&vec![changed], &vec![]), base);
    let with_output = vec![TXOutput { value: 0, pub_key_hash: vec![] }];
    assert_ne!(hash_transaction(&vec![spending_input()], &with_output), base);
    assert_ne!(hash_transaction(&vec![], &vec![]), base);
}

#[test]
fn coinbase_transaction_pays_the_subsidy() {
    let address = address_of(&[5u8; 32]);
    let tx = Transaction::new_coinbase_tx(&address, Some(String::from("hello"))).unwrap();
    assert_eq!(tx.v_in, vec![TXInput {
        tx_id: None,
        v_out_idx: None,
        signature: None,
        pub_key: b"hello".to_vec(),
    }]);
    assert_eq!(tx.v_out, vec![TXOutput { value: 50, pub_key_hash: hash_pub_key(&[5u8; 32]) }]);
    assert_eq!(tx.id, hash_transaction(&tx.v_in, &tx.v_out));
    assert!(tx.is_coinbase_tx());
}

#[test]
fn coinbase_transaction_names_the_recipient_by_default() {
    let address = address_of(&[6u8; 32]);
    let tx = Transaction::new_coinbase_tx(&address, None).unwrap();
    assert_eq!(tx.v_in[0].pub_key, format!("Reword to {}", address).into_bytes());
    let empty = Transaction::new_coinbase_tx(&address, Some(String::new())).unwrap();
    assert_eq!(empty.v_in[0].pub_key, Vec::<u8>::new());
    assert_ne!(empty.id, tx.id);
}

#[test]
fn coinbase_transactions_built_apart_have_the_same_id() {
    let address = address_of(&[6u8; 32]);
    let first = Transaction::new_coinbase_tx(&address, Some(String::from("x"))).unwrap();
    let second = Transaction::new_coinbase_tx(&address, Some(String::from("x"))).unwrap();
    assert_eq!(first, second);
}

#[test]
fn coinbase_transaction_refuses_a_bad_address() {
    assert_eq!(
        Transaction::new_coinbase_tx("not base58: 0OIl", None),
        Err(AddressError::NotBase58)
    );
    assert_eq!(Transaction::new_coinbase_tx("", None), Err(AddressError::TooShort));
}

#[test]
fn output_is_locked_with_the_key_hash_of_the_address() {
    let address = address_of(&[1, 2, 3]);
    let output = TXOutput::new(12, &address).unwrap();
    assert_eq!(output.value, 12);
    assert_eq!(output.pub_key_hash, hash_pub_key(&[1, 2, 3]));
    assert!(output.is_locking_with_key(&hash_pub_key(&[1, 2, 3])));
    assert!(!output.is_locking_with_key(&hash_pub_key(&[1, 2, 4])));
    assert!(!output.is_locking_with_key(&[]));
}

#[test]
fn output_refuses_a_bad_address() {
    assert_eq!(TXOutput::new(1, "0"), Err(AddressError::NotBase58));
    assert_eq!(TXOutput::new(1, "11"), Err(AddressError::TooShort));
}

#[test]
fn input_uses_the_key_whose_hash_is_given() {
    let input = spending_input();
    assert!(input.use_key(&hash_pub_key(&[9; 32])));
    assert!(!input.use_key(&hash_pub_key(&[8; 32])));
    assert!(!input.use_key(&[9; 32]));
}

#[test]
fn input_text() {
    let input = TXInput {
        tx_id: Some([0x11; 32]),
        v_out_idx: Some(12),
        signature: Some(vec![0xab, 0xcd]),
        pub_key: vec![1, 2],
    };
    assert_eq!(
        input.to_text(),
        "tx_id: 0x1111111111111111111111111111111111111111111111111111111111111111\n\
         v_out_idx: 12\npublic key hash: 0x0102 \nsignature: 0xabcd"
    );
    assert_eq!(
        coinbase_like_input().to_text(),
        "tx_id: None\nv_out_idx: None\npublic key hash: 0x6d656d6f \nsignature: None"
    );
}

#[test]
fn output_text() {
    let output = TXOutput { value: 50, pub_key_hash: vec![0xfe, 0x01] };
    assert_eq!(output.to_text(), "value: 50\nscript_pub_key: 0xfe01");
    let large = TXOutput { value: u64::MAX, pub_key_hash: vec![] };
    assert_eq!(large.to_text(), "value: 18446744073709551615\nscript_pub_key: 0x");
}
