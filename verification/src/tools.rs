//! Small helpers: the clock, hexadecimal text and decimal text.

use std::time::{Duration, SystemTime, UNIX_EPOCH};
use vstd::prelude::*;

verus! {

#[verifier::external_type_specification]
#[verifier::external_body]
pub struct ExSystemTime(SystemTime);

/// Reads the system clock with `SystemTime::now`.
///
/// Trusted, and nothing is claimed of the value: it differs from call to call.
#[verifier::external_body]
fn clock_now() -> (now: SystemTime) {
    SystemTime::now()
}

/// Measures `now` against the Unix epoch with `SystemTime::duration_since`.
///
/// Trusted, and nothing is claimed of the value. `None` stands for a clock
/// that reads earlier than the epoch.
#[verifier::external_body]
fn elapsed_since_epoch(now: &SystemTime) -> (elapsed: Option<Duration>) {
    now.duration_since(UNIX_EPOCH).ok()
}

/// Converts a duration to whole milliseconds with `Duration::as_millis`.
///
/// Trusted, and nothing is claimed of the value.
#[verifier::external_body]
fn whole_millis(elapsed: &Duration) -> (millis: u128) {
    elapsed.as_millis()
}

/// The timestamp for what the clock measured: the milliseconds since the
/// epoch, and the epoch itself where the clock reads earlier than the epoch.
pub fn timestamp_from(elapsed_millis: Option<u128>) -> (timestamp: u128)
    ensures
        timestamp == match elapsed_millis {
            Some(millis) => millis,
            None => 0,
        },
{
    match elapsed_millis {
        Some(millis) => millis,
        None => 0,
    }
}

/// The current time in milliseconds since the Unix epoch.
///
/// The value is the clock's, and nothing is known of it beforehand. A clock
/// that reads earlier than the epoch is reported as the epoch itself, as
/// `timestamp_from` says.
pub fn get_timestamp() -> (timestamp: u128) {
    let now = clock_now();
    let elapsed_millis = match elapsed_since_epoch(&now) {
        Some(elapsed) => Some(whole_millis(&elapsed)),
        None => None,
    };
    timestamp_from(elapsed_millis)
}

/// The lowercase hexadecimal digit for a value below sixteen.
pub open spec fn hex_digit(n: int) -> char {
    if n == 0 {
        '0'
    } else if n == 1 {
        '1'
    } else if n == 2 {
        '2'
    } else if n == 3 {
        '3'
    } else if n == 4 {
        '4'
    } else if n == 5 {
        '5'
    } else if n == 6 {
        '6'
    } else if n == 7 {
        '7'
    } else if n == 8 {
        '8'
    } else if n == 9 {
        '9'
    } else if n == 10 {
        'a'
    } else if n == 11 {
        'b'
    } else if n == 12 {
        'c'
    } else if n == 13 {
        'd'
    } else if n == 14 {
        'e'
    } else {
        'f'
    }
}

/// Two hexadecimal digits per byte, high nibble first, in the order of the bytes.
pub open spec fn hex_text(bytes: Seq<u8>) -> Seq<char>
    decreases bytes.len(),
{
    if bytes.len() == 0 {
        Seq::empty()
    } else {
        hex_text(bytes.drop_last()).push(hex_digit(bytes.last() as int / 16)).push(
            hex_digit(bytes.last() as int % 16),
        )
    }
}

/// The text `0x` followed by the hexadecimal digits of `bytes`.
pub open spec fn prefixed_hex_text(bytes: Seq<u8>) -> Seq<char> {
    seq!['0', 'x'] + hex_text(bytes)
}

/// Hexadecimal text has exactly two characters per byte.
pub proof fn lemma_hex_text_len(bytes: Seq<u8>)
    ensures
        hex_text(bytes).len() == 2 * bytes.len(),
    decreases bytes.len(),
{
    if bytes.len() > 0 {
        lemma_hex_text_len(bytes.drop_last());
    }
}

fn hex_digit_str(n: u8) -> (s: &'static str)
    requires
        n < 16,
    ensures
        s@ == seq![hex_digit(n as int)],
{
    proof {
        reveal_strlit("0");
        reveal_strlit("1");
        reveal_strlit("2");
        reveal_strlit("3");
        reveal_strlit("4");
        reveal_strlit("5");
        reveal_strlit("6");
        reveal_strlit("7");
        reveal_strlit("8");
        reveal_strlit("9");
        reveal_strlit("a");
        reveal_strlit("b");
        reveal_strlit("c");
        reveal_strlit("d");
        reveal_strlit("e");
        reveal_strlit("f");
    }
    let s = match n {
        0 => "0",
        1 => "1",
        2 => "2",
        3 => "3",
        4 => "4",
        5 => "5",
        6 => "6",
        7 => "7",
        8 => "8",
        9 => "9",
        10 => "a",
        11 => "b",
        12 => "c",
        13 => "d",
        14 => "e",
        _ => "f",
    };
    assert(s@ =~= seq![hex_digit(n as int)]);
    s
}

/// Renders `bytes` as `0x` followed by two lowercase hexadecimal digits per byte.
pub fn bytes2hex(bytes: &[u8]) -> (text: String)
    ensures
        text@ == prefixed_hex_text(bytes@),
{
    let mut buf = String::from_str("0x");
    proof {
        reveal_strlit("0x");
        assert(buf@ =~= seq!['0', 'x'] + hex_text(bytes@.take(0)));
    }
    let mut i: usize = 0;
    while i < bytes.len()
        invariant
            i <= bytes.len(),
            buf@ == seq!['0', 'x'] + hex_text(bytes@.take(i as int)),
        decreases bytes.len() - i,
    {
        let b: u8 = bytes[i];
        buf.append(hex_digit_str(b / 16));
        buf.append(hex_digit_str(b % 16));
        proof {
            let next = bytes@.take(i + 1);
            assert(next.drop_last() =~= bytes@.take(i as int));
            assert(next.last() == b);
            assert(buf@ =~= seq!['0', 'x'] + hex_text(next));
        }
        i += 1;
    }
    proof {
        assert(bytes@.take(i as int) =~= bytes@);
    }
    buf
}

/// Renders a hash as `0x` followed by its sixty-four hexadecimal digits.
pub fn hash2str(hash: &[u8; 32]) -> (text: String)
    ensures
        text@ == prefixed_hex_text(hash@),
        text@.len() == 66,
{
    proof {
        lemma_hex_text_len(hash@);
    }
    bytes2hex(hash.as_slice())
}

/// The decimal digits of `n` as ASCII bytes, most significant first, without
/// leading zeros.
pub open spec fn decimal_text(n: nat) -> Seq<u8>
    decreases n,
{
    if n < 10 {
        seq![(48 + n) as u8]
    } else {
        decimal_text(n / 10).push((48 + n % 10) as u8)
    }
}

/// The decimal digits of `n` as characters, most significant first, without
/// leading zeros.
pub open spec fn decimal_chars(n: nat) -> Seq<char>
    decreases n,
{
    if n < 10 {
        seq![hex_digit(n as int)]
    } else {
        decimal_chars(n / 10).push(hex_digit((n % 10) as int))
    }
}

/// Writes `n` in decimal.
pub fn decimal_string(n: u128) -> (text: String)
    ensures
        text@ == decimal_chars(n as nat),
    decreases n,
{
    if n < 10 {
        String::from_str(hex_digit_str(n as u8))
    } else {
        let mut text = decimal_string(n / 10);
        text.append(hex_digit_str((n % 10) as u8));
        proof {
            assert(text@ =~= decimal_chars((n / 10) as nat).push(hex_digit((n % 10) as int)));
        }
        text
    }
}

/// Writes `n` in decimal, as the ASCII bytes of its usual text form.
pub fn decimal_bytes(n: u128) -> (text: Vec<u8>)
    ensures
        text@ == decimal_text(n as nat),
{
    let mut reversed: Vec<u8> = Vec::new();
    let mut rest: u128 = n;
    while rest >= 10
        invariant
            decimal_text(n as nat) == decimal_text(rest as nat) + reversed@.reverse(),
        decreases rest,
    {
        let digit: u8 = 48 + (rest % 10) as u8;
        proof {
            let grown = reversed@.push(digit);
            assert(grown.reverse() =~= seq![digit] + reversed@.reverse());
            assert(decimal_text(rest as nat) == decimal_text((rest / 10) as nat).push(digit));
            assert(decimal_text((rest / 10) as nat).push(digit) + reversed@.reverse()
                =~= decimal_text((rest / 10) as nat) + grown.reverse());
        }
        reversed.push(digit);
        rest = rest / 10;
    }
    let leading: u8 = 48 + rest as u8;
    proof {
        let grown = reversed@.push(leading);
        assert(grown.reverse() =~= seq![leading] + reversed@.reverse());
        assert(decimal_text(rest as nat) =~= seq![leading]);
    }
    reversed.push(leading);
    let mut text: Vec<u8> = Vec::new();
    let mut k: usize = reversed.len();
    while k > 0
        invariant
            k <= reversed.len(),
            text@ == reversed@.reverse().take(reversed.len() - k),
        decreases k,
    {
        k -= 1;
        text.push(reversed[k]);
        proof {
            let whole = reversed@.reverse();
            assert(text@ =~= whole.take(reversed.len() - k));
        }
    }
    proof {
        assert(reversed@.reverse().take(reversed.len() as int) =~= reversed@.reverse());
    }
    text
}

} // verus!
