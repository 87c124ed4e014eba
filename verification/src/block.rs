//! Blocks: a timestamp, transactions, a link to the previous block, and the
//! hash and nonce that the proof of work found for them.

use crate::codec::{
    append_bytes, lemma_parse_hash, lemma_parse_optional_hash, lemma_parse_varint_u128,
    lemma_parse_varint_u64, lemma_placed_split, lemma_placed_whole, optional_hash_bytes,
    optional_hash_view, parse_hash, parse_optional_hash, parse_varint_u128, parse_varint_u64,
    placed, read_hash, read_optional_hash, read_varint_u128, read_varint_u64, varint_bytes,
    write_optional_hash, write_varint, HASH_LEN,
};
use crate::codec::bytes_eq;
use crate::pow::{
    block_hash, first_solution, hash_block, meets_target, no_solution, pow, validate_hash,
    TARGET_BITS,
};
use crate::tools::{
    decimal_chars, decimal_string, get_timestamp, hash2str, prefixed_hex_text,
};
use crate::transaction::{
    duplicate_transactions, lemma_parse_transaction_list, lemma_transaction_representable,
    parse_transaction_list, read_transactions, transaction_list_bytes, transactions_representable,
    transactions_view, write_transactions, Transaction, TransactionModel,
};
use vstd::prelude::*;
use vstd::string::*;

verus! {

/// Binary data.
pub type ByteData = Vec<u8>;

/// A 32-byte digest: the identity of a block or of a transaction.
pub type Hash = [u8; 32];

/// Milliseconds since the Unix epoch.
pub type TimeStamp = u128;

/// A block of the chain.
#[derive(Debug, Clone, PartialEq, Eq)]
pub struct Block {
    /// Block created time.
    pub timestamp: u128,
    /// The transactions recorded in this block.
    pub transactions: Vec<Transaction>,
    /// Previous block hash; none for the first block of a chain.
    pub prev_block_hash: Option<[u8; 32]>,
    /// Hash of the block.
    pub hash: [u8; 32],
    /// The number that, hashed with the rest, gives the hash.
    pub nonce: u64,
}

/// What a block holds.
pub struct BlockModel {
    pub timestamp: u128,
    pub transactions: Seq<TransactionModel>,
    pub prev_block_hash: Option<Seq<u8>>,
    pub hash: Seq<u8>,
    pub nonce: u64,
}

impl View for Block {
    type V = BlockModel;

    open spec fn view(&self) -> BlockModel {
        BlockModel {
            timestamp: self.timestamp,
            transactions: transactions_view(self.transactions@),
            prev_block_hash: optional_hash_view(self.prev_block_hash),
            hash: self.hash@,
            nonce: self.nonce,
        }
    }
}

impl BlockModel {
    /// The block can be written and read back.
    pub open spec fn representable(self) -> bool {
        &&& self.hash.len() == HASH_LEN
        &&& self.prev_block_hash matches Some(prev) ==> prev.len() == HASH_LEN
        &&& self.transactions.len() <= u64::MAX
        &&& transactions_representable(self.transactions)
    }

    /// The hash is the hash of the timestamp, the transactions, the previous
    /// hash and the nonce, and it meets the target.
    pub open spec fn sealed(self) -> bool {
        &&& self.hash == block_hash(
            self.timestamp,
            self.transactions,
            self.prev_block_hash,
            self.nonce,
        )
        &&& meets_target(self.hash, TARGET_BITS as nat)
    }

    /// The block is the first of a chain: it names no previous block.
    pub open spec fn is_genesis(self) -> bool {
        self.prev_block_hash is None
    }

    /// The bytes of the block: timestamp, transactions, previous hash, hash,
    /// nonce.
    pub open spec fn bytes(self) -> Seq<u8> {
        varint_bytes(self.timestamp as nat) + transaction_list_bytes(self.transactions)
            + optional_hash_bytes(self.prev_block_hash) + self.hash + varint_bytes(
            self.nonce as nat,
        )
    }

    /// The lines that list the ids of the block's transactions: each id in
    /// hexadecimal after a tab.
    pub open spec fn id_lines(transactions: Seq<TransactionModel>) -> Seq<char>
        decreases transactions.len(),
    {
        if transactions.len() == 0 {
            Seq::empty()
        } else {
            Self::id_lines(transactions.drop_last()) + "\t"@ + prefixed_hex_text(
                transactions.last().id,
            )
        }
    }

    /// The block as text for a reader.
    pub open spec fn text(self) -> Seq<char> {
        "timestamp: "@ + decimal_chars(self.timestamp as nat) + "\nprevious block hash: "@
            + match self.prev_block_hash {
            Some(prev) => prefixed_hex_text(prev),
            None => "None"@,
        } + "\ntransactions: "@ + "\n"@ + Self::id_lines(self.transactions) + "\nhash: "@
            + prefixed_hex_text(self.hash)
    }
}

/// Reads a block at `pos`.
pub open spec fn parse_block(data: Seq<u8>, pos: int) -> Option<(BlockModel, int)> {
    match parse_varint_u128(data, pos) {
        Some((timestamp, p1)) => match parse_transaction_list(data, p1) {
            Some((transactions, p2)) => match parse_optional_hash(data, p2) {
                Some((prev_block_hash, p3)) => match parse_hash(data, p3) {
                    Some((hash, p4)) => match parse_varint_u64(data, p4) {
                        Some((nonce, p5)) => Some(
                            (
                                BlockModel {
                                    timestamp,
                                    transactions,
                                    prev_block_hash,
                                    hash,
                                    nonce,
                                },
                                p5,
                            ),
                        ),
                        None => None,
                    },
                    None => None,
                },
                None => None,
            },
            None => None,
        },
        None => None,
    }
}

/// The block that the bytes start with, if they start with one.
pub open spec fn decoded_block(data: Seq<u8>) -> Option<BlockModel> {
    match parse_block(data, 0) {
        Some((block, _)) => Some(block),
        None => None,
    }
}

/// Reading recovers a written block.
pub proof fn lemma_parse_block(data: Seq<u8>, pos: int, block: BlockModel)
    requires
        block.representable(),
        placed(data, pos, block.bytes()),
    ensures
        parse_block(data, pos) == Some((block, pos + block.bytes().len())),
{
    let a = varint_bytes(block.timestamp as nat);
    let b = transaction_list_bytes(block.transactions);
    let c = optional_hash_bytes(block.prev_block_hash);
    let d = block.hash;
    let e = varint_bytes(block.nonce as nat);
    lemma_placed_split(data, pos, a + b + c + d, e);
    lemma_placed_split(data, pos, a + b + c, d);
    lemma_placed_split(data, pos, a + b, c);
    lemma_placed_split(data, pos, a, b);
    lemma_parse_varint_u128(data, pos, block.timestamp);
    lemma_parse_transaction_list(data, pos + a.len(), block.transactions);
    lemma_parse_optional_hash(data, pos + a.len() + b.len(), block.prev_block_hash);
    lemma_parse_hash(data, pos + a.len() + b.len() + c.len(), block.hash);
    lemma_parse_varint_u64(data, pos + a.len() + b.len() + c.len() + d.len(), block.nonce);
}

/// Whatever a program holds as a block can be written and read back.
pub proof fn lemma_block_representable(block: Block)
    ensures
        block@.representable(),
{
    assert(block.hash@.len() == HASH_LEN);
    match block.prev_block_hash {
        Some(prev) => {
            assert(prev@.len() == HASH_LEN);
        },
        None => {},
    }
    assert(block.transactions@.len() == block.transactions.len());
    assert forall|i: int| 0 <= i < block@.transactions.len() implies (
    #[trigger] block@.transactions[i]).representable() by {
        lemma_transaction_representable(block.transactions@[i]);
    }
}

/// Writing a block and reading the bytes back gives the block, in every
/// field.
pub proof fn lemma_block_round_trip(block: Block)
    ensures
        parse_block(block@.bytes(), 0) == Some((block@, block@.bytes().len() as int)),
        decoded_block(block@.bytes()) == Some(block@),
{
    lemma_block_representable(block);
    lemma_placed_whole(block@.bytes());
    lemma_parse_block(block@.bytes(), 0, block@);
}

impl Block {
    /// Creates a block with the given timestamp: searches for the nonce and
    /// assembles the block.
    ///
    /// Returns `None` exactly where no nonce gives a hash that meets the
    /// target.
    pub fn new_at(
        timestamp: u128,
        transactions: Vec<Transaction>,
        prev_block_hash: Option<[u8; 32]>,
    ) -> (made: Option<Block>)
        ensures
            made matches Some(block) ==> {
                &&& block@.timestamp == timestamp
                &&& block@.transactions == transactions_view(transactions@)
                &&& block@.prev_block_hash == optional_hash_view(prev_block_hash)
                &&& block@.sealed()
                &&& first_solution(
                    timestamp,
                    block@.transactions,
                    block@.prev_block_hash,
                    TARGET_BITS as nat,
                    block@.nonce,
                )
            },
            made is None ==> no_solution(
                timestamp,
                transactions_view(transactions@),
                optional_hash_view(prev_block_hash),
                TARGET_BITS as nat,
            ),
    {
        match pow(timestamp, &transactions, &prev_block_hash) {
            Some((hash, nonce)) => Some(
                Block { timestamp, transactions, prev_block_hash, hash, nonce },
            ),
            None => None,
        }
    }

    /// Creates a new block, stamped with the current time.
    ///
    /// Returns `None` only where, for the time that the clock gave, no nonce
    /// gives a hash that meets the target.
    pub fn new(transactions: Vec<Transaction>, prev_block_hash: Option<[u8; 32]>) -> (made: Option<
        Block,
    >)
        ensures
            made matches Some(block) ==> {
                &&& block@.transactions == transactions_view(transactions@)
                &&& block@.prev_block_hash == optional_hash_view(prev_block_hash)
                &&& block@.sealed()
                &&& first_solution(
                    block@.timestamp,
                    block@.transactions,
                    block@.prev_block_hash,
                    TARGET_BITS as nat,
                    block@.nonce,
                )
            },
            made is None ==> exists|timestamp: u128|
                no_solution(
                    timestamp,
                    transactions_view(transactions@),
                    optional_hash_view(prev_block_hash),
                    TARGET_BITS as nat,
                ),
    {
        let timestamp = get_timestamp();
        Block::new_at(timestamp, transactions, prev_block_hash)
    }

    /// Creates a genesis block: one that holds the coinbase transaction and
    /// names no previous block.
    pub fn new_genesis_block(coinbase: Transaction) -> (made: Option<Block>)
        ensures
            made matches Some(block) ==> {
                &&& block@.transactions == seq![coinbase@]
                &&& block@.is_genesis()
                &&& block@.sealed()
                &&& first_solution(
                    block@.timestamp,
                    block@.transactions,
                    block@.prev_block_hash,
                    TARGET_BITS as nat,
                    block@.nonce,
                )
            },
            made is None ==> exists|timestamp: u128|
                no_solution(timestamp, seq![coinbase@], None, TARGET_BITS as nat),
    {
        let mut transactions: Vec<Transaction> = Vec::new();
        transactions.push(coinbase);
        proof {
            assert(transactions_view(transactions@) =~= seq![coinbase@]);
        }
        Block::new(transactions, None)
    }

    /// Appends the bytes of the block.
    pub fn write(&self, out: &mut Vec<u8>)
        ensures
            final(out)@ == old(out)@ + self@.bytes(),
    {
        write_varint(out, self.timestamp);
        write_transactions(out, &self.transactions);
        write_optional_hash(out, &self.prev_block_hash);
        append_bytes(out, self.hash.as_slice());
        write_varint(out, self.nonce as u128);
        proof {
            assert(out@ =~= old(out)@ + self@.bytes());
        }
    }

    /// Reads a block at `pos`.
    pub fn read(data: &[u8], pos: usize) -> (found: Option<(Block, usize)>)
        ensures
            found matches Some((block, next)) ==> parse_block(data@, pos as int) == Some(
                (block@, next as int),
            ) && pos < next <= data@.len(),
            found is None ==> parse_block(data@, pos as int) is None,
    {
        let (timestamp, p1) = match read_varint_u128(data, pos) {
            Some(part) => part,
            None => {
                return None;
            },
        };
        let (transactions, p2) = match read_transactions(data, p1) {
            Some(part) => part,
            None => {
                return None;
            },
        };
        let (prev_block_hash, p3) = match read_optional_hash(data, p2) {
            Some(part) => part,
            None => {
                return None;
            },
        };
        let (hash, p4) = match read_hash(data, p3) {
            Some(part) => part,
            None => {
                return None;
            },
        };
        let (nonce, p5) = match read_varint_u64(data, p4) {
            Some(part) => part,
            None => {
                return None;
            },
        };
        Some((Block { timestamp, transactions, prev_block_hash, hash, nonce }, p5))
    }

    /// Serializes the block to bytes.
    pub fn encode(&self) -> (bytes: Vec<u8>)
        ensures
            bytes@ == self@.bytes(),
            decoded_block(bytes@) == Some(self@),
    {
        let mut bytes: Vec<u8> = Vec::new();
        self.write(&mut bytes);
        proof {
            assert(bytes@ =~= self@.bytes());
            lemma_block_round_trip(*self);
        }
        bytes
    }

    /// Reads a block from the start of `data`; what follows it is ignored.
    /// `None` exactly where the bytes do not start with a block.
    pub fn decode(data: Vec<u8>) -> (found: Option<Block>)
        ensures
            found matches Some(block) ==> decoded_block(data@) == Some(block@),
            found is None ==> decoded_block(data@) is None,
    {
        match Block::read(data.as_slice(), 0) {
            Some((block, _)) => Some(block),
            None => None,
        }
    }

    /// Checks the block against its hash: hashes the timestamp, the
    /// transactions, the previous hash and the nonce again, and tells whether
    /// that gives the hash the block holds and whether the hash meets the
    /// target.
    pub fn is_sealed(&self) -> (sealed: bool)
        ensures
            sealed == self@.sealed(),
    {
        let again = hash_block(
            self.timestamp,
            &self.transactions,
            &self.prev_block_hash,
            self.nonce,
        );
        bytes_eq(again.as_slice(), self.hash.as_slice()) && validate_hash(&self.hash)
    }

    /// A copy of the block.
    pub fn duplicate(&self) -> (copy: Block)
        ensures
            copy@ == self@,
    {
        Block {
            timestamp: self.timestamp,
            transactions: duplicate_transactions(&self.transactions),
            prev_block_hash: self.prev_block_hash,
            hash: self.hash,
            nonce: self.nonce,
        }
    }

    /// The block as text for a reader: its timestamp, the previous block's
    /// hash, the ids of its transactions and its own hash.
    pub fn to_text(&self) -> (text: String)
        ensures
            text@ == self@.text(),
    {
        let mut lines = String::from_str("\n");
        let ghost all = transactions_view(self.transactions@);
        let mut i: usize = 0;
        proof {
            assert(all.take(0) =~= Seq::<TransactionModel>::empty());
            assert(lines@ =~= "\n"@ + BlockModel::id_lines(all.take(0)));
        }
        while i < self.transactions.len()
            invariant
                i <= self.transactions.len(),
                all == transactions_view(self.transactions@),
                lines@ == "\n"@ + BlockModel::id_lines(all.take(i as int)),
            decreases self.transactions.len() - i,
        {
            let id_text = hash2str(&self.transactions[i].id);
            lines.append("\t");
            lines.append(id_text.as_str());
            proof {
                let grown = all.take(i + 1);
                assert(grown.drop_last() =~= all.take(i as int));
                assert(grown.last() == self.transactions@[i as int]@);
                assert(lines@ =~= "\n"@ + BlockModel::id_lines(grown));
            }
            i += 1;
        }
        proof {
            assert(all.take(i as int) =~= all);
        }
        let mut text = String::from_str("timestamp: ");
        text.append(decimal_string(self.timestamp).as_str());
        text.append("\nprevious block hash: ");
        match &self.prev_block_hash {
            Some(prev) => {
                text.append(hash2str(prev).as_str());
            },
            None => {
                text.append("None");
            },
        }
        text.append("\ntransactions: ");
        text.append(lines.as_str());
        text.append("\nhash: ");
        text.append(hash2str(&self.hash).as_str());
        proof {
            assert(text@ =~= self@.text());
        }
        text
    }
}

} // verus!
