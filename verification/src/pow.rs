//! Proof of work: the search for a nonce that gives a block a hash with
//! enough leading zero bits.

use crate::codec::append_bytes;
use crate::digest::{sha256, sha256_digest};
use crate::tools::{decimal_bytes, decimal_text};
use crate::transaction::{transactions_view, Transaction, TransactionModel};
use vstd::bytes::*;
use vstd::prelude::*;

verus! {

/// How many bits in front of a block's hash must be zero.
pub const TARGET_BITS: u8 = 1;

/// Number of bits in a hash.
pub const HASH_BITS: u16 = 256;

/// The first `bits` bits of `hash` are zero: its first `bits / 8` bytes are
/// zero, and so are the top `bits % 8` bits of the byte after them.
pub open spec fn meets_target(hash: Seq<u8>, bits: nat) -> bool {
    &&& forall|k: int| 0 <= k < bits / 8 ==> hash[k] == 0u8
    &&& bits % 8 != 0 ==> hash[(bits / 8) as int] >> ((8 - bits % 8) as u8) == 0u8
}

/// The top `rest` bits of a byte are zero exactly where the byte is below
/// two to the power of the bits that are left.
pub proof fn lemma_top_bits_zero(byte: u8, rest: u8)
    requires
        1 <= rest <= 7,
    ensures
        (byte >> ((8 - rest) as u8) == 0u8) <==> byte < (1u8 << ((8 - rest) as u8)),
{
    let low: u8 = (8 - rest) as u8;
    assert(1 <= low <= 7 ==> ((byte >> low == 0u8) <==> byte < (1u8 << low))) by (bit_vector);
}

/// With a target of one bit, a hash is valid exactly where its first byte is
/// below 128.
pub proof fn lemma_one_bit_target(hash: Seq<u8>)
    ensures
        meets_target(hash, 1) <==> hash[0] < 128u8,
{
    let first = hash[0];
    assert((first >> 7u8 == 0u8) <==> first < 128u8) by (bit_vector);
}

/// The ids of the transactions, one after the other.
pub open spec fn joined_ids(transactions: Seq<TransactionModel>) -> Seq<u8>
    decreases transactions.len(),
{
    if transactions.len() == 0 {
        Seq::empty()
    } else {
        joined_ids(transactions.drop_last()) + transactions.last().id
    }
}

/// The digest that stands for the transactions of a block: the SHA-256 of
/// their ids, one after the other.
pub open spec fn transactions_digest(transactions: Seq<TransactionModel>) -> Seq<u8> {
    sha256_digest(joined_ids(transactions))
}

/// The bytes of a block that do not change during the search: the timestamp
/// in decimal text, the digest of the transactions, and the previous block's
/// hash where there is one.
pub open spec fn sealed_content(
    timestamp: u128,
    transactions: Seq<TransactionModel>,
    prev_block_hash: Option<Seq<u8>>,
) -> Seq<u8> {
    decimal_text(timestamp as nat) + transactions_digest(transactions) + match prev_block_hash {
        Some(prev) => prev,
        None => Seq::empty(),
    }
}

/// The hash of a block with the given content and nonce: the SHA-256 of the
/// content followed by the nonce in eight little-endian bytes.
pub open spec fn block_hash(
    timestamp: u128,
    transactions: Seq<TransactionModel>,
    prev_block_hash: Option<Seq<u8>>,
    nonce: u64,
) -> Seq<u8> {
    sha256_digest(
        sealed_content(timestamp, transactions, prev_block_hash) + spec_u64_to_le_bytes(nonce),
    )
}

/// `nonce` is the first nonce, counting from 1, whose hash has `bits` leading
/// zero bits.
pub open spec fn first_solution(
    timestamp: u128,
    transactions: Seq<TransactionModel>,
    prev_block_hash: Option<Seq<u8>>,
    bits: nat,
    nonce: u64,
) -> bool {
    &&& nonce >= 1
    &&& meets_target(block_hash(timestamp, transactions, prev_block_hash, nonce), bits)
    &&& forall|earlier: u64|
        1 <= earlier < nonce ==> !meets_target(
            #[trigger] block_hash(timestamp, transactions, prev_block_hash, earlier),
            bits,
        )
}

/// No nonce from 1 on gives a hash with `bits` leading zero bits.
pub open spec fn no_solution(
    timestamp: u128,
    transactions: Seq<TransactionModel>,
    prev_block_hash: Option<Seq<u8>>,
    bits: nat,
) -> bool {
    forall|nonce: u64|
        1 <= nonce ==> !meets_target(
            #[trigger] block_hash(timestamp, transactions, prev_block_hash, nonce),
            bits,
        )
}

/// Tells whether the first `bits` bits of `hash` are zero.
pub fn has_leading_zero_bits(hash: &[u8; 32], bits: u16) -> (valid: bool)
    requires
        bits <= HASH_BITS,
    ensures
        valid == meets_target(hash@, bits as nat),
{
    let whole: usize = (bits / 8) as usize;
    let rest: u8 = (bits % 8) as u8;
    let mut k: usize = 0;
    while k < whole
        invariant
            k <= whole,
            whole == bits / 8,
            bits <= HASH_BITS,
            forall|j: int| 0 <= j < k ==> hash@[j] == 0u8,
        decreases whole - k,
    {
        if hash[k] != 0 {
            proof {
                assert(hash@[k as int] != 0u8);
            }
            return false;
        }
        k += 1;
    }
    if rest > 0 {
        (hash[whole] >> (8 - rest)) == 0
    } else {
        true
    }
}

/// Validates that a hash meets the requirement: its first `TARGET_BITS` bits
/// are zero.
pub fn validate_hash(hash: &[u8; 32]) -> (valid: bool)
    ensures
        valid == meets_target(hash@, TARGET_BITS as nat),
{
    has_leading_zero_bits(hash, TARGET_BITS as u16)
}

/// The digest that stands for the transactions of a block.
pub fn hash_transactions(transactions: &Vec<Transaction>) -> (digest: [u8; 32])
    ensures
        digest@ == transactions_digest(transactions_view(transactions@)),
{
    let mut ids: Vec<u8> = Vec::new();
    let ghost all = transactions_view(transactions@);
    let mut i: usize = 0;
    proof {
        assert(all.take(0) =~= Seq::<TransactionModel>::empty());
    }
    while i < transactions.len()
        invariant
            i <= transactions.len(),
            all == transactions_view(transactions@),
            ids@ == joined_ids(all.take(i as int)),
        decreases transactions.len() - i,
    {
        append_bytes(&mut ids, transactions[i].id.as_slice());
        proof {
            let grown = all.take(i + 1);
            assert(grown.drop_last() =~= all.take(i as int));
            assert(grown.last() == transactions@[i as int]@);
        }
        i += 1;
    }
    proof {
        assert(all.take(i as int) =~= all);
    }
    sha256(ids.as_slice())
}

/// Assembles the bytes of a block that do not change during the search.
pub fn seal_content(
    timestamp: u128,
    transactions: &Vec<Transaction>,
    prev_block_hash: &Option<[u8; 32]>,
) -> (content: Vec<u8>)
    ensures
        content@ == sealed_content(
            timestamp,
            transactions_view(transactions@),
            crate::codec::optional_hash_view(*prev_block_hash),
        ),
{
    let mut content = decimal_bytes(timestamp);
    let digest = hash_transactions(transactions);
    append_bytes(&mut content, digest.as_slice());
    match prev_block_hash {
        Some(prev) => {
            append_bytes(&mut content, prev.as_slice());
        },
        None => {
            proof {
                assert(content@ + Seq::<u8>::empty() =~= content@);
            }
        },
    }
    content
}

/// Hashes sealed content together with a nonce.
pub fn hash_with_nonce(content: &Vec<u8>, nonce: u64) -> (hash: [u8; 32])
    ensures
        hash@ == sha256_digest(content@ + spec_u64_to_le_bytes(nonce)),
{
    let mut input: Vec<u8> = Vec::new();
    append_bytes(&mut input, content.as_slice());
    let tail = u64_to_le_bytes(nonce);
    append_bytes(&mut input, tail.as_slice());
    proof {
        assert(input@ =~= content@ + spec_u64_to_le_bytes(nonce));
    }
    sha256(input.as_slice())
}

/// The hash of a block with the given content and nonce. The same content and
/// nonce always give the same hash.
pub fn hash_block(
    timestamp: u128,
    transactions: &Vec<Transaction>,
    prev_block_hash: &Option<[u8; 32]>,
    nonce: u64,
) -> (hash: [u8; 32])
    ensures
        hash@ == block_hash(
            timestamp,
            transactions_view(transactions@),
            crate::codec::optional_hash_view(*prev_block_hash),
            nonce,
        ),
{
    let content = seal_content(timestamp, transactions, prev_block_hash);
    hash_with_nonce(&content, nonce)
}

/// Searches for a nonce whose hash has `bits` leading zero bits, trying 1, 2,
/// 3 and so on.
///
/// Returns the first such nonce with its hash. Returns `None` exactly where
/// no 64-bit nonce from 1 on gives such a hash.
pub fn pow_with_target(
    timestamp: u128,
    transactions: &Vec<Transaction>,
    prev_block_hash: &Option<[u8; 32]>,
    bits: u16,
) -> (found: Option<([u8; 32], u64)>)
    requires
        bits <= HASH_BITS,
    ensures
        found matches Some((hash, nonce)) ==> {
            &&& hash@ == block_hash(
                timestamp,
                transactions_view(transactions@),
                crate::codec::optional_hash_view(*prev_block_hash),
                nonce,
            )
            &&& meets_target(hash@, bits as nat)
            &&& first_solution(
                timestamp,
                transactions_view(transactions@),
                crate::codec::optional_hash_view(*prev_block_hash),
                bits as nat,
                nonce,
            )
        },
        found is None ==> no_solution(
            timestamp,
            transactions_view(transactions@),
            crate::codec::optional_hash_view(*prev_block_hash),
            bits as nat,
        ),
{
    let ghost txs = transactions_view(transactions@);
    let ghost prev = crate::codec::optional_hash_view(*prev_block_hash);
    let content = seal_content(timestamp, transactions, prev_block_hash);
    let mut nonce: u64 = 1;
    loop
        invariant
            bits <= HASH_BITS,
            nonce >= 1,
            txs == transactions_view(transactions@),
            prev == crate::codec::optional_hash_view(*prev_block_hash),
            content@ == sealed_content(timestamp, txs, prev),
            forall|earlier: u64|
                1 <= earlier < nonce ==> !meets_target(
                    #[trigger] block_hash(timestamp, txs, prev, earlier),
                    bits as nat,
                ),
        decreases u64::MAX - nonce,
    {
        let hash = hash_with_nonce(&content, nonce);
        if has_leading_zero_bits(&hash, bits) {
            return Some((hash, nonce));
        }
        if nonce == u64::MAX {
            return None;
        }
        nonce += 1;
    }
}

/// Proof of work: returns a hash that meets the requirement, and the nonce
/// that gives it, the first one counting from 1.
///
/// Returns `None` exactly where the nonces are exhausted without one.
pub fn pow(
    timestamp: u128,
    transactions: &Vec<Transaction>,
    prev_block_hash: &Option<[u8; 32]>,
) -> (found: Option<([u8; 32], u64)>)
    ensures
        found matches Some((hash, nonce)) ==> {
            &&& hash@ == block_hash(
                timestamp,
                transactions_view(transactions@),
                crate::codec::optional_hash_view(*prev_block_hash),
                nonce,
            )
            &&& meets_target(hash@, TARGET_BITS as nat)
            &&& first_solution(
                timestamp,
                transactions_view(transactions@),
                crate::codec::optional_hash_view(*prev_block_hash),
                TARGET_BITS as nat,
                nonce,
            )
        },
        found is None ==> no_solution(
            timestamp,
            transactions_view(transactions@),
            crate::codec::optional_hash_view(*prev_block_hash),
            TARGET_BITS as nat,
        ),
{
    pow_with_target(timestamp, transactions, prev_block_hash, TARGET_BITS as u16)
}

} // verus!
