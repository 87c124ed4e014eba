use ledger::block::Block;
use ledger::codec::{
    append_bytes, bytes_eq, read_bytes_field, read_hash, read_optional_bytes_field,
    read_optional_hash, read_optional_index, read_varint_u128, read_varint_u64,
    write_bytes_field, write_optional_bytes_field, write_optional_hash, write_optional_index,
    write_varint,
};
use ledger::transaction::{
    read_inputs, read_outputs, read_transactions, write_inputs, write_outputs, write_transactions,
    TXInput, TXOutput, Transaction,
};

type InputParts = (Option<[u8; 32]>, Option<usize>, Option<Vec<u8>>, Vec<u8>);
type OutputParts = (u64, Vec<u8>);
type TransactionParts = ([u8; 32], Vec<InputParts>, Vec<OutputParts>);
type BlockParts = (u128, Vec<TransactionParts>, Option<[u8; 32]>, [u8; 32], u64);

fn varint(value: u128) -> Vec<u8> {
    let mut out = Vec::new();
    write_varint(&mut out, value);
    out
}

fn sample_input(seed: u8) -> TXInput {
    TXInput {
        tx_id: Some([seed; 32]),
        v_out_idx: Some(seed as usize * 100),
        signature: Some(vec![seed, 1, 2, 3]),
        pub_key: vec![seed; 40],
    }
}

fn sample_transaction(seed: u8) -> Transaction {
    Transaction {
        id: [seed.wrapping_add(1); 32],
        v_in: vec![
            sample_input(seed),
            TXInput { tx_id: None, v_out_idx: None, signature: None, pub_key: vec![] },
        ],
        v_out: vec![
            TXOutput { value: 30, pub_key_hash: vec![seed; 20] },
            TXOutput { value: u64::MAX, pub_key_hash: vec![] },
        ],
    }
}

fn sample_block() -> Block {
    Block {
        timestamp: 1_700_000_000_123,
        transactions: vec![sample_transaction(3), sample_transaction(200)],
        prev_block_hash: Some([9; 32]),
        hash: [7; 32],
        nonce: 70_000,
    }
}

fn input_parts(input: &TXInput) -> InputParts {
    (input.tx_id, input.v_out_idx, input.signature.clone(), input.pub_key.clone())
}

fn transaction_parts(tx: &Transaction) -> TransactionParts {
    (
        tx.id,
        tx.v_in.iter().map(input_parts).collect(),
        tx.v_out.iter().map(|o| (o.value, o.pub_key_hash.clone())).collect(),
    )
}

fn block_parts(block: &Block) -> BlockParts {
    (
        block.timestamp,
        block.transactions.iter().map(transaction_parts).collect(),
        block.prev_block_hash,
        block.hash,
        block.nonce,
    )
}

#[test]
fn varint_small_values_take_one_byte() {
    assert_eq!(varint(0), vec![0]);
    assert_eq!(varint(1), vec![1]);
    assert_eq!(varint(250), vec![250]);
}

#[test]
fn varint_uses_the_shortest_form_that_holds_the_value() {
    assert_eq!(varint(251), vec![251, 251, 0]);
    assert_eq!(varint(0x1234), vec![251, 0x34, 0x12]);
    assert_eq!(varint(65_535), vec![251, 0xff, 0xff]);
    assert_eq!(varint(65_536), vec![252, 0, 0, 1, 0]);
    assert_eq!(varint(u32::MAX as u128), vec![252, 0xff, 0xff, 0xff, 0xff]);
    assert_eq!(varint(u32::MAX as u128 + 1), vec![253, 0, 0, 0, 0, 1, 0, 0, 0]);
    assert_eq!(varint(u64::MAX as u128), vec![253, 255, 255, 255, 255, 255, 255, 255, 255]);
    let mut wide = vec![254u8];
    wide.extend_from_slice(&(u64::MAX as u128 + 1).to_le_bytes());
    assert_eq!(varint(u64::MAX as u128 + 1), wide);
    assert_eq!(varint(u128::MAX).len(), 17);
}

#[test]
fn varint_matches_bincode_for_64_and_128_bits() {
    let config = bincode::config::standard();
    for value in [0u64, 1, 250, 251, 252, 65_535, 65_536, 1 << 32, u64::MAX - 1, u64::MAX] {
        assert_eq!(varint(value as u128), bincode::encode_to_vec(value, config).unwrap());
        assert_eq!(varint(value as u128), bincode::encode_to_vec(value as u128, config).unwrap());
    }
    for value in [u64::MAX as u128 + 1, u128::MAX] {
        assert_eq!(varint(value), bincode::encode_to_vec(value, config).unwrap());
    }
}

#[test]
fn varint_read_recovers_what_was_written() {
    for value in [0u128, 7, 250, 251, 70_000, 1 << 40, u64::MAX as u128, u128::MAX] {
        let mut data = vec![0xaa, 0xbb];
        write_varint(&mut data, value);
        let end = data.len();
        data.push(0xcc);
        assert_eq!(read_varint_u128(&data, 2), Some((value, end)));
        if value <= u64::MAX as u128 {
            assert_eq!(read_varint_u64(&data, 2), Some((value as u64, end)));
        } else {
            assert_eq!(read_varint_u64(&data, 2), None);
        }
    }
}

#[test]
fn varint_read_accepts_a_longer_form_than_needed() {
    assert_eq!(read_varint_u64(&[251, 5, 0], 0), Some((5, 3)));
    assert_eq!(read_varint_u64(&[253, 5, 0, 0, 0, 0, 0, 0, 0], 0), Some((5, 9)));
}

#[test]
fn varint_read_refuses_short_or_unknown_input() {
    assert_eq!(read_varint_u64(&[], 0), None);
    assert_eq!(read_varint_u64(&[1], 1), None);
    assert_eq!(read_varint_u64(&[1], 5), None);
    assert_eq!(read_varint_u64(&[251, 1], 0), None);
    assert_eq!(read_varint_u64(&[252, 1, 2, 3], 0), None);
    assert_eq!(read_varint_u64(&[253, 1, 2, 3, 4, 5, 6, 7], 0), None);
    assert_eq!(read_varint_u64(&[255, 1, 2, 3], 0), None);
    assert_eq!(read_varint_u128(&[254, 1, 2, 3], 0), None);
    assert_eq!(read_varint_u128(&[255], 0), None);
}

#[test]
fn append_and_compare_bytes() {
    let mut out = vec![1u8, 2];
    append_bytes(&mut out, &[3, 4, 5]);
    assert_eq!(out, vec![1, 2, 3, 4, 5]);
    append_bytes(&mut out, &[]);
    assert_eq!(out, vec![1, 2, 3, 4, 5]);
    assert!(bytes_eq(&[1, 2, 3], &[1, 2, 3]));
    assert!(bytes_eq(&[], &[]));
    assert!(!bytes_eq(&[1, 2, 3], &[1, 2, 4]));
    assert!(!bytes_eq(&[1, 2, 3], &[1, 2]));
}

#[test]
fn bytes_field_is_length_then_bytes() {
    let mut out = Vec::new();
    write_bytes_field(&mut out, &[9, 8, 7]);
    assert_eq!(out, vec![3, 9, 8, 7]);
    assert_eq!(read_bytes_field(&out, 0), Some((vec![9, 8, 7], 4)));
    let long = vec![5u8; 300];
    let mut out = Vec::new();
    write_bytes_field(&mut out, &long);
    assert_eq!(&out[..3], &[251, 0x2c, 0x01]);
    assert_eq!(out, bincode::encode_to_vec(&long, bincode::config::standard()).unwrap());
    assert_eq!(read_bytes_field(&out, 0), Some((long, 303)));
    assert_eq!(read_bytes_field(&[3, 9, 8], 0), None);
    assert_eq!(read_bytes_field(&[], 0), None);
}

#[test]
fn hash_is_read_as_32_bytes() {
    let mut data = vec![0u8; 2];
    data.extend_from_slice(&[4u8; 32]);
    assert_eq!(read_hash(&data, 2), Some(([4u8; 32], 34)));
    assert_eq!(read_hash(&data, 3), None);
    assert_eq!(read_hash(&data, 100), None);
}

#[test]
fn optional_fields_match_bincode() {
    let config = bincode::config::standard();
    let mut out = Vec::new();
    write_optional_hash(&mut out, &None);
    assert_eq!(out, vec![0]);
    assert_eq!(read_optional_hash(&out, 0), Some((None, 1)));
    let mut out = Vec::new();
    write_optional_hash(&mut out, &Some([6; 32]));
    assert_eq!(out, bincode::encode_to_vec(Some([6u8; 32]), config).unwrap());
    assert_eq!(out.len(), 33);
    assert_eq!(read_optional_hash(&out, 0), Some((Some([6; 32]), 33)));
    assert_eq!(read_optional_hash(&[2], 0), None);
    assert_eq!(read_optional_hash(&[1, 1, 1], 0), None);

    let mut out = Vec::new();
    write_optional_index(&mut out, &Some(300));
    assert_eq!(out, vec![1, 251, 0x2c, 0x01]);
    assert_eq!(out, bincode::encode_to_vec(Some(300usize), config).unwrap());
    assert_eq!(read_optional_index(&out, 0), Some((Some(300), 4)));
    let mut out = Vec::new();
    write_optional_index(&mut out, &None);
    assert_eq!(out, vec![0]);
    assert_eq!(read_optional_index(&out, 0), Some((None, 1)));
    assert_eq!(read_optional_index(&[3, 0], 0), None);

    let mut out = Vec::new();
    write_optional_bytes_field(&mut out, &Some(vec![1, 2]));
    assert_eq!(out, vec![1, 2, 1, 2]);
    assert_eq!(out, bincode::encode_to_vec(Some(vec![1u8, 2]), config).unwrap());
    assert_eq!(read_optional_bytes_field(&out, 0), Some((Some(vec![1, 2]), 4)));
    let mut out = Vec::new();
    write_optional_bytes_field(&mut out, &None);
    assert_eq!(out, vec![0]);
    assert_eq!(read_optional_bytes_field(&out, 0), Some((None, 1)));
    assert_eq!(read_optional_bytes_field(&[1, 5, 0], 0), None);
}

#[test]
fn input_bytes_match_bincode() {
    let input = sample_input(4);
    let mut out = Vec::new();
    input.write(&mut out);
    let expected = bincode::encode_to_vec(input_parts(&input), bincode::config::standard());
    assert_eq!(out, expected.unwrap());
    assert_eq!(TXInput::read(&out, 0), Some((input, out.len())));
}

#[test]
fn output_bytes_match_bincode() {
    let output = TXOutput { value: 1_000_000, pub_key_hash: vec![3; 20] };
    let mut out = Vec::new();
    output.write(&mut out);
    let expected = bincode::encode_to_vec((1_000_000u64, vec![3u8; 20]), bincode::config::standard());
    assert_eq!(out, expected.unwrap());
    assert_eq!(TXOutput::read(&out, 0), Some((output, out.len())));
    assert_eq!(TXOutput::read(&out[..out.len() - 1], 0), None);
}

#[test]
fn lists_are_count_then_items() {
    let inputs = vec![sample_input(1), sample_input(2), sample_input(3)];
    let mut out = Vec::new();
    write_inputs(&mut out, &inputs);
    assert_eq!(out[0], 3);
    let parts: Vec<InputParts> = inputs.iter().map(input_parts).collect();
    assert_eq!(out, bincode::encode_to_vec(&parts, bincode::config::standard()).unwrap());
    assert_eq!(read_inputs(&out, 0), Some((inputs, out.len())));

    let outputs = vec![TXOutput { value: 5, pub_key_hash: vec![1] }];
    let mut out = Vec::new();
    write_outputs(&mut out, &outputs);
    assert_eq!(out, vec![1, 5, 1, 1]);
    assert_eq!(read_outputs(&out, 0), Some((outputs, 4)));

    let mut out = Vec::new();
    write_outputs(&mut out, &Vec::new());
    assert_eq!(out, vec![0]);
    assert_eq!(read_outputs(&out, 0), Some((Vec::new(), 1)));
}

#[test]
fn list_read_refuses_a_count_that_the_bytes_do_not_hold() {
    assert_eq!(read_outputs(&[2, 5, 1, 1], 0), None);
    assert_eq!(read_inputs(&[1], 0), None);
    assert_eq!(read_transactions(&[253, 255, 255, 255, 255, 255, 255, 255, 255], 0), None);
}

#[test]
fn transaction_bytes_match_bincode() {
    let tx = sample_transaction(11);
    let bytes = tx.encode();
    let expected = bincode::encode_to_vec(transaction_parts(&tx), bincode::config::standard());
    assert_eq!(bytes, expected.unwrap());
}

#[test]
fn transaction_round_trip() {
    for seed in [0u8, 1, 77, 255] {
        let tx = sample_transaction(seed);
        let bytes = tx.encode();
        assert_eq!(Transaction::decode(&bytes), Some(tx.clone()));
        assert_eq!(Transaction::read(&bytes, 0), Some((tx, bytes.len())));
    }
    let empty = Transaction { id: [0; 32], v_in: vec![], v_out: vec![] };
    assert_eq!(Transaction::decode(&empty.encode()), Some(empty));
}

#[test]
fn transaction_list_round_trip() {
    let list = vec![sample_transaction(1), sample_transaction(2)];
    let mut out = vec![0xee];
    write_transactions(&mut out, &list);
    assert_eq!(read_transactions(&out, 1), Some((list, out.len())));
}

#[test]
fn block_bytes_match_bincode() {
    let block = sample_block();
    let expected = bincode::encode_to_vec(block_parts(&block), bincode::config::standard());
    assert_eq!(block.encode(), expected.unwrap());
}

#[test]
fn block_bytes_are_read_by_bincode() {
    let block = sample_block();
    let bytes = block.encode();
    let (parts, used): (BlockParts, usize) =
        bincode::decode_from_slice(&bytes, bincode::config::standard()).unwrap();
    assert_eq!(parts, block_parts(&block));
    assert_eq!(used, bytes.len());
}

#[test]
fn block_round_trip() {
    let block = sample_block();
    assert_eq!(Block::decode(block.encode()), Some(block.clone()));
    let genesis = Block {
        timestamp: 0,
        transactions: vec![],
        prev_block_hash: None,
        hash: [0; 32],
        nonce: 0,
    };
    assert_eq!(genesis.encode().len(), 1 + 1 + 1 + 32 + 1);
    assert_eq!(Block::decode(genesis.encode()), Some(genesis));
    let late = Block { timestamp: u128::MAX, nonce: u64::MAX, ..block };
    assert_eq!(Block::decode(late.encode()), Some(late));
}

#[test]
fn block_decode_ignores_what_follows_the_block() {
    let block = sample_block();
    let mut bytes = block.encode();
    bytes.extend_from_slice(&[1, 2, 3]);
    assert_eq!(Block::decode(bytes), Some(block));
}

#[test]
fn block_decode_refuses_malformed_bytes() {
    let bytes = sample_block().encode();
    assert_eq!(Block::decode(Vec::new()), None);
    assert_eq!(Block::decode(vec![255]), None);
    for cut in [1, 10, bytes.len() / 2, bytes.len() - 1] {
        assert_eq!(Block::decode(bytes[..cut].to_vec()), None);
    }
}

#[test]
fn block_duplicate_is_equal() {
    let block = sample_block();
    assert_eq!(block.duplicate(), block);
    assert_eq!(block.transactions[0].duplicate(), block.transactions[0]);
    assert_eq!(block.transactions[0].v_in[0].duplicate(), block.transactions[0].v_in[0]);
    assert_eq!(block.transactions[0].v_out[0].duplicate(), block.transactions[0].v_out[0]);
}
