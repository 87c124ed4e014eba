use ledger::tools::{
    bytes2hex, decimal_bytes, decimal_string, get_timestamp, hash2str, timestamp_from,
};

#[test]
fn timestamp_is_what_the_clock_measured() {
    assert_eq!(timestamp_from(Some(1_700_000_000_123)), 1_700_000_000_123);
    assert_eq!(timestamp_from(Some(0)), 0);
    assert_eq!(timestamp_from(Some(u128::MAX)), u128::MAX);
}

#[test]
fn clock_before_the_epoch_reads_as_the_epoch() {
    assert_eq!(timestamp_from(None), 0);
}

#[test]
fn bytes2hex_writes_two_lowercase_digits_per_byte() {
    assert_eq!(bytes2hex(&[]), "0x");
    assert_eq!(bytes2hex(&[0]), "0x00");
    assert_eq!(bytes2hex(&[0x0f, 0xf0, 0xab, 0x10]), "0x0ff0ab10");
    assert_eq!(bytes2hex(&[255, 1, 154]), "0xff019a");
}

#[test]
fn bytes2hex_covers_every_byte() {
    for byte in 0..=255u8 {
        assert_eq!(bytes2hex(&[byte]), format!("0x{:02x}", byte));
    }
}

#[test]
fn hash2str_has_66_characters() {
    let mut hash = [0u8; 32];
    hash[0] = 0xde;
    hash[31] = 0x01;
    let text = hash2str(&hash);
    assert_eq!(text.len(), 66);
    assert_eq!(
        text,
        "0xde00000000000000000000000000000000000000000000000000000000000001"
    );
    assert_eq!(hash2str(&hash), bytes2hex(&hash));
}

#[test]
fn decimal_text_of_numbers() {
    assert_eq!(decimal_bytes(0), b"0".to_vec());
    assert_eq!(decimal_bytes(7), b"7".to_vec());
    assert_eq!(decimal_bytes(10), b"10".to_vec());
    assert_eq!(decimal_bytes(1_700_000_000_123), b"1700000000123".to_vec());
    assert_eq!(decimal_string(0), "0");
    assert_eq!(decimal_string(9), "9");
    assert_eq!(decimal_string(10), "10");
    assert_eq!(decimal_string(1_700_000_000_123), "1700000000123");
}

#[test]
fn decimal_text_agrees_with_the_standard_library() {
    for value in [1u128, 99, 100, 101, 12345678901234567890, u64::MAX as u128, u128::MAX] {
        assert_eq!(decimal_bytes(value), value.to_string().into_bytes());
        assert_eq!(decimal_string(value), value.to_string());
    }
}

#[test]
fn timestamp_is_after_the_year_2020() {
    let first = get_timestamp();
    let second = get_timestamp();
    assert!(first > 1_577_836_800_000);
    assert!(second >= first);
}
