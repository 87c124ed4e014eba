//! The ledger: a chain of blocks kept in a store, with the hash of the newest
//! block as the way in.
//!
//! The store holds each block under the block's hash, and the hash of the
//! newest block under a key of its own. The chain is what a walk finds that
//! starts at the newest block and follows the hashes of the previous blocks.

use crate::block::{decoded_block, lemma_block_representable, Block, BlockModel};
use crate::codec::{optional_hash_view, HASH_LEN};
use crate::pow::{no_solution, TARGET_BITS};
use crate::store::Store;
use crate::tools::{decimal_chars, decimal_string};
use crate::transaction::{coinbase_transaction, transactions_view, Transaction};
use crate::utxo::{
    blocks_view, build_transfer, first_fit, lemma_total_value_grows, points_of, points_view,
    select_outputs, spending_inputs, sum_values, total_value, transfer_outputs, unspent,
    unspent_outputs, unspent_view, OutPoint, Unspent,
};
use crate::wallet::{
    address_key_hash, base58_decoded, ed25519_public_key, extract_pub_key_hash, position_of,
    AddressError, Wallets,
};
use vstd::prelude::*;
use vstd::slice::*;
use vstd::string::*;

verus! {

/// The byte that makes the key under which the store keeps the hash of the
/// newest block: the letter `l`.
pub const LATEST_HASH: u8 = 0x6c;

/// Why an operation of the ledger failed.
#[derive(Debug, Clone, PartialEq, Eq)]
pub enum LedgerError {
    /// An address names no key hash.
    BadAddress(AddressError),
    /// No nonce gives the new block a hash that meets the target.
    NonceExhausted,
    /// The store holds no hash of a newest block.
    NoTip,
    /// The store holds bytes that are no hash or no block, or a chain that
    /// has more blocks than the store has entries.
    Corrupt,
    /// The values of the unspent outputs add up to more than 64 bits hold.
    ValueOverflow,
    /// The payer's unspent outputs are worth less than the amount.
    InsufficientFunds { from: String, to: String, amount: u64 },
    /// No key pair is kept for the payer's address.
    NoWallet,
}

/// The key under which the store keeps the hash of the newest block.
pub open spec fn latest_key() -> Seq<u8> {
    seq![LATEST_HASH]
}

/// What one step of a walk finds.
pub enum Step {
    /// The walk is over: there is no hash to follow, or the store holds
    /// nothing under it.
    Done,
    /// The block under the hash.
    Found(BlockModel),
    /// The store holds bytes under the hash that are no block.
    Broken,
}

/// One step of a walk that stands at `cur`.
pub open spec fn step(store: Map<Seq<u8>, Seq<u8>>, cur: Option<Seq<u8>>) -> Step {
    match cur {
        None => Step::Done,
        Some(hash) => if !store.contains_key(hash) {
            Step::Done
        } else {
            match decoded_block(store[hash]) {
                Some(block) => Step::Found(block),
                None => Step::Broken,
            }
        },
    }
}

/// The blocks that a walk from `cur` finds, newest first, in at most `fuel`
/// steps that find a block. `None` where a step finds bytes that are no
/// block, or where the walk is not over after `fuel` blocks.
pub open spec fn chain_from(store: Map<Seq<u8>, Seq<u8>>, cur: Option<Seq<u8>>, fuel: nat) -> Option<
    Seq<BlockModel>,
>
    decreases fuel,
{
    match step(store, cur) {
        Step::Done => Some(Seq::empty()),
        Step::Broken => None,
        Step::Found(block) => if fuel == 0 {
            None
        } else {
            match chain_from(store, block.prev_block_hash, (fuel - 1) as nat) {
                Some(rest) => Some(seq![block] + rest),
                None => None,
            }
        },
    }
}

/// A chain that ends where it should: it has a block, and its oldest block
/// names no previous one.
pub open spec fn ends_at_genesis(chain: Seq<BlockModel>) -> bool {
    chain.len() > 0 && chain.last().is_genesis()
}

/// The hash that a walk follows is a hash: it has 32 bytes.
pub open spec fn is_hash(cur: Option<Seq<u8>>) -> bool {
    cur matches Some(hash) ==> hash.len() == HASH_LEN
}

/// A block that was read from bytes names a previous block by 32 bytes.
pub proof fn lemma_decoded_prev_is_hash(bytes: Seq<u8>)
    ensures
        decoded_block(bytes) matches Some(block) ==> is_hash(block.prev_block_hash),
{
}

/// A walk that ends within `fuel` blocks finds the same chain with more fuel.
pub proof fn lemma_more_fuel(
    store: Map<Seq<u8>, Seq<u8>>,
    cur: Option<Seq<u8>>,
    fuel: nat,
    more: nat,
)
    requires
        chain_from(store, cur, fuel) is Some,
        fuel <= more,
    ensures
        chain_from(store, cur, more) == chain_from(store, cur, fuel),
    decreases fuel,
{
    match step(store, cur) {
        Step::Found(block) => {
            lemma_more_fuel(store, block.prev_block_hash, (fuel - 1) as nat, (more - 1) as nat);
        },
        _ => {},
    }
}

/// A chain that ends at its genesis block stays what it is when the store
/// takes a value under a key that is no hash, or under a key that it did not
/// hold.
pub proof fn lemma_chain_kept(
    store: Map<Seq<u8>, Seq<u8>>,
    cur: Option<Seq<u8>>,
    fuel: nat,
    key: Seq<u8>,
    value: Seq<u8>,
)
    requires
        is_hash(cur),
        key.len() != HASH_LEN || !store.contains_key(key),
        cur is Some ==> (chain_from(store, cur, fuel) matches Some(chain) && ends_at_genesis(
            chain,
        )),
    ensures
        chain_from(store.insert(key, value), cur, fuel) == chain_from(store, cur, fuel),
    decreases fuel,
{
    match cur {
        None => {},
        Some(hash) => {
            let chain = chain_from(store, cur, fuel)->0;
            match step(store, cur) {
                Step::Found(block) => {
                    assert(hash != key);
                    lemma_decoded_prev_is_hash(store[hash]);
                    let rest = chain_from(store, block.prev_block_hash, (fuel - 1) as nat)->0;
                    assert(chain == seq![block] + rest);
                    if block.prev_block_hash is Some {
                        if rest.len() == 0 {
                            assert(chain.last() == block);
                        } else {
                            assert(chain.last() == rest.last());
                        }
                    }
                    lemma_chain_kept(
                        store,
                        block.prev_block_hash,
                        (fuel - 1) as nat,
                        key,
                        value,
                    );
                },
                _ => {},
            }
        },
    }
}

/// Appending a block puts it in front of the chain. Where a store holds a
/// chain that starts at `tip` and ends at its genesis block, and `block` names
/// `tip` as its previous block and has a hash that the store does not hold
/// yet, the store with the block under its hash, and with that hash as the
/// newest, holds the chain with `block` in front: one block more, the newest
/// first, the genesis block last.
pub proof fn lemma_append_extends_chain(
    store: Map<Seq<u8>, Seq<u8>>,
    tip: Seq<u8>,
    fuel: nat,
    block: BlockModel,
    chain: Seq<BlockModel>,
)
    requires
        tip.len() == HASH_LEN,
        chain_from(store, Some(tip), fuel) == Some(chain),
        ends_at_genesis(chain),
        block.representable(),
        block.prev_block_hash == Some(tip),
        !store.contains_key(block.hash),
    ensures
        chain_from(
            store.insert(block.hash, block.bytes()).insert(latest_key(), block.hash),
            Some(block.hash),
            fuel + 2,
        ) == Some(seq![block] + chain),
        (seq![block] + chain).len() == chain.len() + 1,
        ends_at_genesis(seq![block] + chain),
{
    let with_block = store.insert(block.hash, block.bytes());
    let after = with_block.insert(latest_key(), block.hash);
    lemma_chain_kept(store, Some(tip), fuel, block.hash, block.bytes());
    lemma_chain_kept(with_block, Some(tip), fuel, latest_key(), block.hash);
    lemma_more_fuel(after, Some(tip), fuel, fuel + 1);
    crate::codec::lemma_placed_whole(block.bytes());
    crate::block::lemma_parse_block(block.bytes(), 0, block);
    assert(after[block.hash] == block.bytes());
    assert((seq![block] + chain).last() == chain.last());
}

/// Reads the hash kept under `key`.
///
/// `Ok(None)` exactly where the store holds nothing under the key; `Corrupt`
/// exactly where it holds bytes that are not 32.
pub fn get_hash(db: &Store, key: &[u8]) -> (found: Result<Option<[u8; 32]>, LedgerError>)
    ensures
        !db@.contains_key(key@) <==> found == Ok::<Option<[u8; 32]>, LedgerError>(None),
        found matches Ok(Some(hash)) ==> db@.contains_key(key@) && db@[key@] == hash@,
        found is Err ==> found == Err::<Option<[u8; 32]>, LedgerError>(LedgerError::Corrupt)
            && db@.contains_key(key@) && db@[key@].len() != HASH_LEN,
{
    match db.get(key) {
        Some(data) => {
            if data.len() != HASH_LEN {
                return Err(LedgerError::Corrupt);
            }
            match crate::codec::read_hash(data.as_slice(), 0) {
                Some((hash, _)) => {
                    proof {
                        assert(data@.subrange(0, HASH_LEN as int) =~= data@);
                    }
                    Ok(Some(hash))
                },
                None => Err(LedgerError::Corrupt),
            }
        },
        None => Ok(None),
    }
}

/// Keeps `hash` under `key`.
pub fn put_hash(db: &mut Store, key: &[u8], hash: &[u8; 32])
    ensures
        final(db)@ == old(db)@.insert(key@, hash@),
        final(db).log().len() == old(db).log().len() + 1,
{
    db.put(key, hash.as_slice());
}

/// Reads the block kept under `hash`.
///
/// `Ok(None)` exactly where the store holds nothing under the hash; `Corrupt`
/// exactly where it holds bytes that are no block.
pub fn get_block(db: &Store, hash: &[u8; 32]) -> (found: Result<Option<Block>, LedgerError>)
    ensures
        match step(db@, Some(hash@)) {
            Step::Done => found == Ok::<Option<Block>, LedgerError>(None),
            Step::Found(block) => found matches Ok(Some(b)) && b@ == block,
            Step::Broken => found == Err::<Option<Block>, LedgerError>(LedgerError::Corrupt),
        },
{
    match db.get(hash.as_slice()) {
        Some(data) => match Block::decode(data) {
            Some(block) => Ok(Some(block)),
            None => Err(LedgerError::Corrupt),
        },
        None => Ok(None),
    }
}

/// Keeps `block` under its hash.
pub fn put_block(db: &mut Store, block: &Block)
    ensures
        final(db)@ == old(db)@.insert(block@.hash, block@.bytes()),
        final(db).log().len() == old(db).log().len() + 1,
{
    let bytes = block.encode();
    db.put(block.hash.as_slice(), bytes.as_slice());
}

/// The chain with `front` before it, where there is a chain.
pub open spec fn after_front(front: Seq<BlockModel>, rest: Option<Seq<BlockModel>>) -> Option<
    Seq<BlockModel>,
> {
    match rest {
        Some(chain) => Some(front + chain),
        None => None,
    }
}

/// The ledger: the store that holds the blocks, and the hash of the newest.
#[derive(Debug, Clone, PartialEq, Eq)]
pub struct BlockChain {
    /// The hash value of the latest block.
    pub tip: [u8; 32],
    /// The store that holds the blocks.
    db: Store,
}

/// A walk along the chain, from the newest block to the oldest.
pub struct BlockChainIter<'a> {
    /// The hash of the block that the next step reads; none when the walk
    /// is over.
    pub cur_hash: Option<[u8; 32]>,
    /// The store that holds the blocks.
    db: &'a Store,
}

impl<'a> BlockChainIter<'a> {
    /// What the store of the walk holds.
    pub closed spec fn store(&self) -> Map<Seq<u8>, Seq<u8>> {
        self.db@
    }

    /// How many writes the store of the walk has seen.
    pub closed spec fn writes(&self) -> nat {
        self.db.log().len()
    }

    /// The hash of the block that the next step reads.
    pub closed spec fn cursor(&self) -> Option<Seq<u8>> {
        optional_hash_view(self.cur_hash)
    }

    /// A walk that starts at the newest block of `block_chain`.
    pub fn new(block_chain: &'a BlockChain) -> (walk: BlockChainIter<'a>)
        ensures
            walk.cursor() == Some(block_chain.head()),
            walk.store() == block_chain.store(),
            walk.writes() == block_chain.writes(),
    {
        BlockChainIter { cur_hash: Some(block_chain.tip), db: &block_chain.db }
    }

    /// Reads the block that the walk stands at and moves to the one before it.
    ///
    /// `Ok(None)` when the walk is over: after the genesis block, or where the
    /// store holds nothing under the hash. `Corrupt` where the store holds bytes
    /// that are no block; the walk is over then too.
    pub fn next(&mut self) -> (found: Result<Option<Block>, LedgerError>)
        ensures
            final(self).store() == old(self).store(),
            final(self).writes() == old(self).writes(),
            match step(old(self).store(), old(self).cursor()) {
                Step::Done => found == Ok::<Option<Block>, LedgerError>(None)
                    && final(self).cursor() is None,
                Step::Found(block) => found matches Ok(Some(b)) && b@ == block
                    && final(self).cursor() == block.prev_block_hash,
                Step::Broken => found == Err::<Option<Block>, LedgerError>(LedgerError::Corrupt)
                    && final(self).cursor() is None,
            },
    {
        let cur_hash = match self.cur_hash {
            Some(hash) => hash,
            None => {
                return Ok(None);
            },
        };
        match get_block(self.db, &cur_hash) {
            Ok(Some(block)) => {
                self.cur_hash = block.prev_block_hash;
                Ok(Some(block))
            },
            Ok(None) => {
                self.cur_hash = None;
                Ok(None)
            },
            Err(e) => {
                self.cur_hash = None;
                Err(e)
            },
        }
    }
}

impl BlockChain {
    /// The hash of the newest block, as the ledger holds it.
    pub closed spec fn head(&self) -> Seq<u8> {
        self.tip@
    }

    /// What the store holds.
    pub closed spec fn store(&self) -> Map<Seq<u8>, Seq<u8>> {
        self.db@
    }

    /// How many writes the store has seen.
    pub closed spec fn writes(&self) -> nat {
        self.db.log().len()
    }

    /// The chain: the blocks from the newest to the oldest. `None` where the
    /// store is corrupt.
    pub open spec fn chain(&self) -> Option<Seq<BlockModel>> {
        chain_from(self.store(), Some(self.head()), self.writes())
    }

    /// The store names the newest block by the hash that the ledger holds.
    pub open spec fn pointer_set(&self) -> bool {
        self.store().contains_key(latest_key()) && self.store()[latest_key()] == self.head()
    }

    /// The ledger is whole: its chain can be walked from the newest block to a
    /// genesis block, and the store names the newest block.
    pub open spec fn well_formed(&self) -> bool {
        &&& self.pointer_set()
        &&& self.chain() matches Some(chain) && ends_at_genesis(chain)
    }

    /// The store, for whoever keeps it on disk.
    pub fn db(&self) -> (db: &Store)
        ensures
            db@ == self.store(),
            db.log().len() == self.writes(),
    {
        &self.db
    }

    /// Creates a ledger: a chain of one block, the genesis block, whose one
    /// transaction pays the subsidy to `address`.
    ///
    /// Fails with `BadAddress` exactly where the address names no key hash, and
    /// with `NonceExhausted` where the search for a nonce failed.
    pub fn create(address: String) -> (made: Result<BlockChain, LedgerError>)
        ensures
            match address_key_hash(address@) {
                None => made matches Err(LedgerError::BadAddress(_)),
                Some(key_hash) => {
                    let coinbase = coinbase_transaction(Seq::empty(), key_hash);
                    match made {
                        Ok(ledger) => {
                            &&& ledger.well_formed()
                            &&& ledger.writes() == 2
                            &&& ledger.chain() matches Some(chain) && {
                                &&& chain.len() == 1
                                &&& chain[0].hash == ledger.head()
                                &&& chain[0].sealed()
                                &&& chain[0].is_genesis()
                                &&& chain[0].transactions == seq![coinbase]
                                &&& ledger.store() == Map::<Seq<u8>, Seq<u8>>::empty().insert(
                                    chain[0].hash,
                                    chain[0].bytes(),
                                ).insert(latest_key(), chain[0].hash)
                            }
                        },
                        Err(e) => e == LedgerError::NonceExhausted && exists|timestamp: u128|
                            no_solution(timestamp, seq![coinbase], None, TARGET_BITS as nat),
                    }
                },
            },
            made matches Err(LedgerError::BadAddress(e)) ==> (e == AddressError::NotBase58
                <==> base58_decoded(address@) is None),
    {
        let coinbase = match Transaction::new_coinbase_tx(address.as_str(), Some(String::new())) {
            Ok(coinbase) => coinbase,
            Err(e) => {
                return Err(LedgerError::BadAddress(e));
            },
        };
        let genesis = match Block::new_genesis_block(coinbase) {
            Some(genesis) => genesis,
            None => {
                return Err(LedgerError::NonceExhausted);
            },
        };
        let mut db = Store::new();
        put_block(&mut db, &genesis);
        let key: [u8; 1] = [LATEST_HASH];
        put_hash(&mut db, key.as_slice(), &genesis.hash);
        let tip = genesis.hash;
        let ledger = BlockChain { tip, db };
        proof {
            assert(key@ =~= latest_key());
            crate::block::lemma_block_round_trip(genesis);
            assert(ledger.store()[genesis@.hash] == genesis@.bytes());
            assert(step(ledger.store(), Some(ledger.head())) == Step::Found(genesis@));
            assert(chain_from(ledger.store(), None, 1) == Some(Seq::<BlockModel>::empty()));
            assert(seq![genesis@] + Seq::<BlockModel>::empty() =~= seq![genesis@]);
        }
        Ok(ledger)
    }

    /// Opens a ledger on a store.
    ///
    /// `Ok(None)` exactly where the store names no newest block; `Corrupt`
    /// exactly where what it names is not a hash.
    pub fn get(db: Store) -> (opened: Result<Option<BlockChain>, LedgerError>)
        ensures
            !db@.contains_key(latest_key()) <==> opened == Ok::<Option<BlockChain>, LedgerError>(
                None,
            ),
            opened matches Ok(Some(ledger)) ==> ledger.store() == db@ && ledger.writes()
                == db.log().len() && ledger.pointer_set(),
            opened is Err ==> opened == Err::<Option<BlockChain>, LedgerError>(
                LedgerError::Corrupt,
            ) && db@.contains_key(latest_key()) && db@[latest_key()].len() != HASH_LEN,
    {
        let key: [u8; 1] = [LATEST_HASH];
        proof {
            assert(key@ =~= latest_key());
        }
        match get_hash(&db, key.as_slice()) {
            Ok(Some(tip)) => Ok(Some(BlockChain { tip, db })),
            Ok(None) => Ok(None),
            Err(e) => Err(e),
        }
    }

    /// Adds a new block to the chain: one that holds `transactions` and names
    /// the newest block, as the store has it, as its previous block.
    ///
    /// Fails, and changes nothing, with `NoTip` exactly where the store names no
    /// newest block, with `Corrupt` exactly where what it names is not a hash,
    /// and with `NonceExhausted` where the search for a nonce failed.
    ///
    /// Where the ledger was whole and the hash of the new block is not one
    /// that the store holds already, the chain afterwards is the new block
    /// followed by the chain before.
    pub fn mine_block(&mut self, transactions: Vec<Transaction>) -> (done: Result<
        (),
        LedgerError,
    >)
        ensures
            done is Err ==> *final(self) == *old(self),
            done == Err::<(), LedgerError>(LedgerError::NoTip) <==> !old(self).store().contains_key(
                latest_key(),
            ),
            done == Err::<(), LedgerError>(LedgerError::Corrupt) <==> (old(self).store().contains_key(
                latest_key(),
            ) && old(self).store()[latest_key()].len() != HASH_LEN),
            done matches Err(e) ==> e == LedgerError::NoTip || e == LedgerError::Corrupt || e
                == LedgerError::NonceExhausted,
            done == Err::<(), LedgerError>(LedgerError::NonceExhausted) ==> exists|timestamp: u128|
                no_solution(
                    timestamp,
                    transactions_view(transactions@),
                    Some(old(self).store()[latest_key()]),
                    TARGET_BITS as nat,
                ),
            done is Ok ==> (decoded_block(final(self).store()[final(self).head()]) matches Some(block)
                && {
                &&& final(self).store().contains_key(final(self).head())
                &&& block.hash == final(self).head()
                &&& block.transactions == transactions_view(transactions@)
                &&& block.prev_block_hash == Some(old(self).store()[latest_key()])
                &&& block.sealed()
                &&& final(self).store() == old(self).store().insert(
                    block.hash,
                    block.bytes(),
                ).insert(latest_key(), block.hash)
                &&& final(self).writes() == old(self).writes() + 2
                &&& final(self).pointer_set()
                &&& (old(self).well_formed() && !old(self).store().contains_key(block.hash))
                    ==> final(self).well_formed() && final(self).chain() == Some(
                    seq![block] + old(self).chain()->0,
                )
            }),
    {
        let key: [u8; 1] = [LATEST_HASH];
        proof {
            assert(key@ =~= latest_key());
        }
        let last_hash = match get_hash(&self.db, key.as_slice()) {
            Ok(Some(hash)) => hash,
            Ok(None) => {
                return Err(LedgerError::NoTip);
            },
            Err(e) => {
                return Err(e);
            },
        };
        let new_block = match Block::new(transactions, Some(last_hash)) {
            Some(block) => block,
            None => {
                return Err(LedgerError::NonceExhausted);
            },
        };
        put_block(&mut self.db, &new_block);
        self.tip = new_block.hash;
        put_hash(&mut self.db, key.as_slice(), &new_block.hash);
        proof {
            let block = new_block@;
            crate::block::lemma_block_round_trip(new_block);
            lemma_block_representable(new_block);
            assert(self.store()[block.hash] == block.bytes());
            if old(self).well_formed() && !old(self).store().contains_key(block.hash) {
                lemma_append_extends_chain(
                    old(self).store(),
                    old(self).head(),
                    old(self).writes(),
                    block,
                    old(self).chain()->0,
                );
            }
        }
        Ok(())
    }

    /// The blocks of the chain, from the newest to the oldest.
    ///
    /// Fails with `Corrupt` exactly where the store holds bytes that are no
    /// block under a hash of the chain, or a chain of more blocks than the
    /// store has seen writes.
    pub fn blocks(&self) -> (found: Result<Vec<Block>, LedgerError>)
        ensures
            found matches Ok(blocks) ==> self.chain() == Some(blocks_view(blocks@)),
            found is Err ==> found == Err::<Vec<Block>, LedgerError>(LedgerError::Corrupt)
                && self.chain() is None,
    {
        let mut walk = BlockChainIter::new(self);
        let mut blocks: Vec<Block> = Vec::new();
        let mut fuel: usize = self.db.write_count();
        proof {
            assert(blocks_view(blocks@) =~= Seq::<BlockModel>::empty());
            assert(Seq::<BlockModel>::empty() + chain_from(
                self.store(),
                Some(self.head()),
                fuel as nat,
            )->0 =~= chain_from(self.store(), Some(self.head()), fuel as nat)->0);
        }
        loop
            invariant
                walk.store() == self.store(),
                self.chain() == after_front(
                    blocks_view(blocks@),
                    chain_from(self.store(), walk.cursor(), fuel as nat),
                ),
            decreases fuel,
        {
            let ghost cur = walk.cursor();
            match walk.next() {
                Ok(Some(block)) => {
                    if fuel == 0 {
                        return Err(LedgerError::Corrupt);
                    }
                    proof {
                        let rest = chain_from(
                            self.store(),
                            block@.prev_block_hash,
                            (fuel - 1) as nat,
                        );
                        assert(blocks_view(blocks@.push(block)) =~= blocks_view(blocks@).push(
                            block@,
                        ));
                        if rest is Some {
                            assert(blocks_view(blocks@) + (seq![block@] + rest->0)
                                =~= blocks_view(blocks@).push(block@) + rest->0);
                        }
                    }
                    blocks.push(block);
                    fuel -= 1;
                },
                Ok(None) => {
                    proof {
                        assert(blocks_view(blocks@) + Seq::<BlockModel>::empty() =~= blocks_view(
                            blocks@,
                        ));
                    }
                    return Ok(blocks);
                },
                Err(_) => {
                    return Err(LedgerError::Corrupt);
                },
            }
        }
    }
    /// Finds the unspent outputs of the owner of `pub_key_hash`: the outputs of
    /// the chain that are locked by the key and that no input of the chain,
    /// made with the key, spends.
    ///
    /// Fails with `Corrupt` exactly where the chain cannot be read.
    pub fn find_utxo(&self, pub_key_hash: &[u8]) -> (found: Result<Vec<Unspent>, LedgerError>)
        ensures
            found matches Ok(items) ==> (self.chain() matches Some(chain) && unspent_view(items@)
                == unspent(chain, pub_key_hash@)),
            found is Err ==> found == Err::<Vec<Unspent>, LedgerError>(LedgerError::Corrupt)
                && self.chain() is None,
    {
        match self.blocks() {
            Ok(blocks) => Ok(unspent_outputs(&blocks, pub_key_hash)),
            Err(e) => Err(e),
        }
    }

    /// Finds the balance of `addr`: the sum of the values of its unspent
    /// outputs.
    ///
    /// Fails with `BadAddress` exactly where the address names no key hash;
    /// else with `Corrupt` exactly where the chain cannot be read; else with
    /// `ValueOverflow` exactly where the sum does not fit in 64 bits.
    pub fn get_balance(&self, addr: &str) -> (balance: Result<u64, LedgerError>)
        ensures
            match address_key_hash(addr@) {
                None => balance matches Err(LedgerError::BadAddress(_)),
                Some(key_hash) => match self.chain() {
                    None => balance == Err::<u64, LedgerError>(LedgerError::Corrupt),
                    Some(chain) => if total_value(unspent(chain, key_hash)) <= u64::MAX {
                        balance == Ok::<u64, LedgerError>(
                            total_value(unspent(chain, key_hash)) as u64,
                        )
                    } else {
                        balance == Err::<u64, LedgerError>(LedgerError::ValueOverflow)
                    },
                },
            },
    {
        let pub_key_hash = match extract_pub_key_hash(addr) {
            Ok(hash) => hash,
            Err(e) => {
                return Err(LedgerError::BadAddress(e));
            },
        };
        let utxo = match self.find_utxo(pub_key_hash.as_slice()) {
            Ok(utxo) => utxo,
            Err(e) => {
                return Err(e);
            },
        };
        match sum_values(&utxo) {
            Some(balance) => Ok(balance),
            None => Err(LedgerError::ValueOverflow),
        }
    }

    /// Finds unspent outputs of `address` that are worth `amount`: takes the
    /// unspent outputs in their order, one by one, and stops as soon as their
    /// value reaches `amount`. Returns the references of the outputs taken
    /// and their value, which is less than `amount` only where all the unspent
    /// outputs together are worth less.
    ///
    /// Fails with `BadAddress` exactly where the address names no key hash, and
    /// else with `Corrupt` exactly where the chain cannot be read.
    pub fn find_spendable_outputs(&self, address: &str, amount: u64) -> (picked: Result<
        (Vec<OutPoint>, u128),
        LedgerError,
    >)
        ensures
            match address_key_hash(address@) {
                None => picked matches Err(LedgerError::BadAddress(_)),
                Some(key_hash) => match self.chain() {
                    None => picked == Err::<(Vec<OutPoint>, u128), LedgerError>(
                        LedgerError::Corrupt,
                    ),
                    Some(chain) => picked matches Ok((points, value)) && {
                        let all = unspent(chain, key_hash);
                        &&& first_fit(all, amount, points@.len())
                        &&& points_view(points@) == points_of(all.take(points@.len() as int))
                        &&& value == total_value(all.take(points@.len() as int))
                        &&& value < amount <==> total_value(all) < amount
                        &&& value < amount + 0x1_0000_0000_0000_0000
                    },
                },
            },
    {
        let pub_key_hash = match extract_pub_key_hash(address) {
            Ok(hash) => hash,
            Err(e) => {
                return Err(LedgerError::BadAddress(e));
            },
        };
        let all_utxo = match self.find_utxo(pub_key_hash.as_slice()) {
            Ok(utxo) => utxo,
            Err(e) => {
                return Err(e);
            },
        };
        let picked = select_outputs(&all_utxo, amount);
        proof {
            let all = unspent_view(all_utxo@);
            let count = picked.0@.len() as int;
            lemma_total_value_grows(all, count);
            if count == all.len() {
                assert(all.take(count) =~= all);
            }
        }
        Ok(picked)
    }

    /// Makes the transaction that sends `amount` from `from` to `to`.
    ///
    /// The transaction spends the outputs that `find_spendable_outputs` picks:
    /// it has one input for each, made with the public key that `wallets`
    /// keeps for `from`; one output that pays `amount` to `to`; and, where the
    /// outputs picked are worth more, a second output that gives the rest back
    /// to `from`.
    ///
    /// Fails, in this order: with `BadAddress` where `from` names no key hash;
    /// with `Corrupt` where the chain cannot be read; with `InsufficientFunds`,
    /// which names `from`, `to` and `amount`, where the unspent outputs of
    /// `from` are worth less than `amount`; with `NoWallet` where `wallets`
    /// keeps no key pair for `from`, or one that cannot be read; with
    /// `BadAddress` where `to` names no key hash.
    pub fn new_tx(&self, from: &str, to: &str, amount: u64, wallets: &Wallets) -> (made: Result<
        Transaction,
        LedgerError,
    >)
        requires
            wallets.well_formed(),
        ensures
            match address_key_hash(from@) {
                None => made matches Err(LedgerError::BadAddress(_)),
                Some(from_hash) => match self.chain() {
                    None => made == Err::<Transaction, LedgerError>(LedgerError::Corrupt),
                    Some(chain) => if total_value(unspent(chain, from_hash)) < amount {
                        made matches Err(LedgerError::InsufficientFunds { from: f, to: t, amount: a })
                            && f@ == from@ && t@ == to@ && a == amount
                    } else {
                        match sender_key(wallets, from@) {
                            None => made == Err::<Transaction, LedgerError>(LedgerError::NoWallet),
                            Some(pub_key) => match address_key_hash(to@) {
                                None => made matches Err(LedgerError::BadAddress(_)),
                                Some(to_hash) => made matches Ok(tx) && exists|count: nat|
                                    #![trigger first_fit(unspent(chain, from_hash), amount, count)]
                                    {
                                        let all = unspent(chain, from_hash);
                                        let picked = all.take(count as int);
                                        &&& first_fit(all, amount, count)
                                        &&& tx@.v_in == spending_inputs(points_of(picked), pub_key)
                                        &&& tx@.v_out == transfer_outputs(
                                            amount,
                                            total_value(picked),
                                            to_hash,
                                            from_hash,
                                        )
                                        &&& tx@.well_formed()
                                    },
                            },
                        }
                    },
                },
            },
    {
        let (points, value) = match self.find_spendable_outputs(from, amount) {
            Ok(picked) => picked,
            Err(e) => {
                return Err(e);
            },
        };
        if value < amount as u128 {
            return Err(
                LedgerError::InsufficientFunds {
                    from: String::from_str(from),
                    to: String::from_str(to),
                    amount,
                },
            );
        }
        let wallet = match wallets.get_wallet(from) {
            Some(wallet) => wallet,
            None => {
                return Err(LedgerError::NoWallet);
            },
        };
        let to_hash = match extract_pub_key_hash(to) {
            Ok(hash) => hash,
            Err(e) => {
                return Err(LedgerError::BadAddress(e));
            },
        };
        let from_hash = match extract_pub_key_hash(from) {
            Ok(hash) => hash,
            Err(e) => {
                return Err(LedgerError::BadAddress(e));
            },
        };
        let tx = build_transfer(&points, value, amount, wallet.public_key(), to_hash, from_hash);
        proof {
            let chain = self.chain()->0;
            let all = unspent(chain, address_key_hash(from@)->0);
            assert(first_fit(all, amount, points@.len()));
        }
        Ok(tx)
    }

    /// The chain as text for a reader: each block, from the newest to the
    /// oldest, followed by an empty line.
    ///
    /// Fails with `Corrupt` exactly where the chain cannot be read.
    pub fn chain_text(&self) -> (text: Result<String, LedgerError>)
        ensures
            text matches Ok(t) ==> (self.chain() matches Some(chain) && t@ == blocks_text(chain)),
            text is Err ==> text == Err::<String, LedgerError>(LedgerError::Corrupt)
                && self.chain() is None,
    {
        let blocks = match self.blocks() {
            Ok(blocks) => blocks,
            Err(e) => {
                return Err(e);
            },
        };
        let ghost all = blocks_view(blocks@);
        let mut text = String::new();
        let mut i: usize = 0;
        proof {
            assert(all.take(0) =~= Seq::<BlockModel>::empty());
        }
        while i < blocks.len()
            invariant
                i <= blocks.len(),
                all == blocks_view(blocks@),
                text@ == blocks_text(all.take(i as int)),
            decreases blocks.len() - i,
        {
            let block_text = blocks[i].to_text();
            text.append(block_text.as_str());
            text.append("\n\n");
            proof {
                let grown = all.take(i + 1);
                assert(grown.drop_last() =~= all.take(i as int));
                assert(grown.last() == blocks@[i as int]@);
                assert(text@ =~= blocks_text(grown));
            }
            i += 1;
        }
        proof {
            assert(all.take(i as int) =~= all);
        }
        Ok(text)
    }
}

/// The public key that `wallets` gives for `address`: the one of the key pair
/// kept for it, where one is kept and can be read.
pub open spec fn sender_key(wallets: &Wallets, address: Seq<char>) -> Option<Seq<u8>> {
    match position_of(wallets.entries(), address) {
        Some(i) => ed25519_public_key(wallets.entries()[i].key_pair@),
        None => None,
    }
}

/// The blocks as text for a reader: each followed by an empty line.
pub open spec fn blocks_text(chain: Seq<BlockModel>) -> Seq<char>
    decreases chain.len(),
{
    if chain.len() == 0 {
        Seq::empty()
    } else {
        blocks_text(chain.drop_last()) + chain.last().text() + "\n\n"@
    }
}

impl LedgerError {
    /// The failure in words.
    pub open spec fn message_text(self) -> Seq<char> {
        match self {
            LedgerError::BadAddress(AddressError::NotBase58) => "Decode address error: the address is not Base58"@,
            LedgerError::BadAddress(AddressError::TooShort) => "Decode address error: the address is too short"@,
            LedgerError::NonceExhausted => "Can not find validate hash"@,
            LedgerError::NoTip => "Add block failed, there were no blocks"@,
            LedgerError::Corrupt => "The blockchain database is corrupt"@,
            LedgerError::ValueOverflow => "The balance is too large"@,
            LedgerError::InsufficientFunds { from, to, amount } => "Cannot transfer "@
                + decimal_chars(amount as nat) + " from "@ + from@ + " to "@ + to@
                + ", not enough funds"@,
            LedgerError::NoWallet => "Can not get wallet for address"@,
        }
    }

    /// The failure in words. Insufficient funds are reported with the amount
    /// and both addresses.
    pub fn message(&self) -> (text: String)
        ensures
            text@ == self.message_text(),
    {
        match self {
            LedgerError::BadAddress(AddressError::NotBase58) => String::from_str(
                "Decode address error: the address is not Base58",
            ),
            LedgerError::BadAddress(AddressError::TooShort) => String::from_str(
                "Decode address error: the address is too short",
            ),
            LedgerError::NonceExhausted => String::from_str("Can not find validate hash"),
            LedgerError::NoTip => String::from_str("Add block failed, there were no blocks"),
            LedgerError::Corrupt => String::from_str("The blockchain database is corrupt"),
            LedgerError::ValueOverflow => String::from_str("The balance is too large"),
            LedgerError::InsufficientFunds { from, to, amount } => {
                let mut text = String::from_str("Cannot transfer ");
                text.append(decimal_string(*amount as u128).as_str());
                text.append(" from ");
                text.append(from.as_str());
                text.append(" to ");
                text.append(to.as_str());
                text.append(", not enough funds");
                proof {
                    assert(text@ =~= self.message_text());
                }
                text
            },
            LedgerError::NoWallet => String::from_str("Can not get wallet for address"),
        }
    }
}

} // verus!
