//! Unspent outputs: which outputs of a chain still belong to a key, how much
//! they are worth, and which of them pay for a transfer.
//!
//! A chain is given as its blocks from the newest to the oldest. An output is
//! spent where some input of the chain, made with the key, refers to it;
//! inputs of coinbase transactions refer to nothing and are passed over.

use crate::block::{Block, BlockModel};
use crate::codec::bytes_eq;
use crate::transaction::{
    hash_transaction, transactions_view, TXInput, TXInputModel, TXOutput, TXOutputModel,
    Transaction, TransactionModel,
};
use vstd::prelude::*;
use vstd::slice::*;

verus! {

/// A reference to an output: the id of its transaction and its index there.
#[derive(Debug, Clone, Copy, PartialEq, Eq)]
pub struct OutPoint {
    pub tx_id: [u8; 32],
    pub index: usize,
}

/// What a reference to an output holds.
pub struct OutPointModel {
    pub tx_id: Seq<u8>,
    pub index: usize,
}

impl View for OutPoint {
    type V = OutPointModel;

    open spec fn view(&self) -> OutPointModel {
        OutPointModel { tx_id: self.tx_id@, index: self.index }
    }
}

/// An unspent output, with the reference by which an input can spend it.
#[derive(Debug, Clone, PartialEq, Eq)]
pub struct Unspent {
    pub tx_id: [u8; 32],
    pub index: usize,
    pub output: TXOutput,
}

/// What an unspent output holds.
pub struct UnspentModel {
    pub tx_id: Seq<u8>,
    pub index: usize,
    pub output: TXOutputModel,
}

impl View for Unspent {
    type V = UnspentModel;

    open spec fn view(&self) -> UnspentModel {
        UnspentModel { tx_id: self.tx_id@, index: self.index, output: self.output@ }
    }
}

impl UnspentModel {
    /// The reference by which an input spends this output.
    pub open spec fn point(self) -> OutPointModel {
        OutPointModel { tx_id: self.tx_id, index: self.index }
    }
}

/// The unspent outputs of a key: every output of the chain that is locked by
/// the key and not spent, from the newest block to the oldest, and inside a
/// block in the order of its transactions and of their outputs.
pub type UTXO = Vec<Unspent>;

/// What a run of references holds, one by one.
pub open spec fn points_view(points: Seq<OutPoint>) -> Seq<OutPointModel> {
    points.map_values(|point: OutPoint| point@)
}

/// What a run of unspent outputs holds, one by one.
pub open spec fn unspent_view(items: Seq<Unspent>) -> Seq<UnspentModel> {
    items.map_values(|item: Unspent| item@)
}

/// What a run of blocks holds, one by one.
pub open spec fn blocks_view(blocks: Seq<Block>) -> Seq<BlockModel> {
    blocks.map_values(|block: Block| block@)
}

/// The output that `input` spends for the owner of `key_hash`: the one it
/// refers to, where it was made with that key and refers to one.
pub open spec fn input_spend(input: TXInputModel, key_hash: Seq<u8>) -> Option<OutPointModel> {
    if input.spends_with(key_hash) && input.refers() {
        Some(OutPointModel { tx_id: input.tx_id->0, index: input.v_out_idx->0 })
    } else {
        None
    }
}

/// The outputs that a run of inputs spends for the owner of `key_hash`.
pub open spec fn inputs_spends(inputs: Seq<TXInputModel>, key_hash: Seq<u8>) -> Seq<OutPointModel>
    decreases inputs.len(),
{
    if inputs.len() == 0 {
        Seq::empty()
    } else {
        let front = inputs_spends(inputs.drop_last(), key_hash);
        match input_spend(inputs.last(), key_hash) {
            Some(point) => front.push(point),
            None => front,
        }
    }
}

/// The outputs that a transaction spends for the owner of `key_hash`; a
/// coinbase transaction spends none.
pub open spec fn tx_spends(tx: TransactionModel, key_hash: Seq<u8>) -> Seq<OutPointModel> {
    if tx.is_coinbase() {
        Seq::empty()
    } else {
        inputs_spends(tx.v_in, key_hash)
    }
}

/// The outputs that the transactions of a block spend for the owner of
/// `key_hash`.
pub open spec fn block_spends(transactions: Seq<TransactionModel>, key_hash: Seq<u8>) -> Seq<
    OutPointModel,
>
    decreases transactions.len(),
{
    if transactions.len() == 0 {
        Seq::empty()
    } else {
        block_spends(transactions.drop_last(), key_hash) + tx_spends(transactions.last(), key_hash)
    }
}

/// The outputs that a chain spends for the owner of `key_hash`.
pub open spec fn chain_spends(chain: Seq<BlockModel>, key_hash: Seq<u8>) -> Seq<OutPointModel>
    decreases chain.len(),
{
    if chain.len() == 0 {
        Seq::empty()
    } else {
        chain_spends(chain.drop_last(), key_hash) + block_spends(
            chain.last().transactions,
            key_hash,
        )
    }
}

/// The first `count` outputs of a transaction that are locked by `key_hash`
/// and not among `spent`.
pub open spec fn tx_unspent(
    tx: TransactionModel,
    count: nat,
    key_hash: Seq<u8>,
    spent: Seq<OutPointModel>,
) -> Seq<UnspentModel>
    decreases count,
{
    if count == 0 {
        Seq::empty()
    } else {
        let front = tx_unspent(tx, (count - 1) as nat, key_hash, spent);
        let index = (count - 1) as usize;
        let output = tx.v_out[count - 1];
        if output.locked_by(key_hash) && !spent.contains(OutPointModel { tx_id: tx.id, index }) {
            front.push(UnspentModel { tx_id: tx.id, index, output })
        } else {
            front
        }
    }
}

/// The outputs of the transactions of a block that are locked by `key_hash`
/// and not among `spent`.
pub open spec fn block_unspent(
    transactions: Seq<TransactionModel>,
    key_hash: Seq<u8>,
    spent: Seq<OutPointModel>,
) -> Seq<UnspentModel>
    decreases transactions.len(),
{
    if transactions.len() == 0 {
        Seq::empty()
    } else {
        block_unspent(transactions.drop_last(), key_hash, spent) + tx_unspent(
            transactions.last(),
            transactions.last().v_out.len(),
            key_hash,
            spent,
        )
    }
}

/// The outputs of a chain that are locked by `key_hash` and not among
/// `spent`.
pub open spec fn chain_unspent(
    chain: Seq<BlockModel>,
    key_hash: Seq<u8>,
    spent: Seq<OutPointModel>,
) -> Seq<UnspentModel>
    decreases chain.len(),
{
    if chain.len() == 0 {
        Seq::empty()
    } else {
        chain_unspent(chain.drop_last(), key_hash, spent) + block_unspent(
            chain.last().transactions,
            key_hash,
            spent,
        )
    }
}

/// The unspent outputs of the owner of `key_hash` in a chain: the outputs
/// locked by the key that no input of the chain, made with the key, spends.
pub open spec fn unspent(chain: Seq<BlockModel>, key_hash: Seq<u8>) -> Seq<UnspentModel> {
    chain_unspent(chain, key_hash, chain_spends(chain, key_hash))
}

/// The sum of the values of a run of unspent outputs.
pub open spec fn total_value(items: Seq<UnspentModel>) -> nat
    decreases items.len(),
{
    if items.len() == 0 {
        0
    } else {
        total_value(items.drop_last()) + items.last().output.value as nat
    }
}

/// The references of a run of unspent outputs.
pub open spec fn points_of(items: Seq<UnspentModel>) -> Seq<OutPointModel> {
    items.map_values(|item: UnspentModel| item.point())
}

/// Appends the outputs that `tx` spends for the owner of `key_hash`.
pub fn collect_tx_spends(tx: &Transaction, key_hash: &[u8], out: &mut Vec<OutPoint>)
    ensures
        points_view(final(out)@) == points_view(old(out)@) + tx_spends(tx@, key_hash@),
{
    if tx.is_coinbase_tx() {
        proof {
            assert(points_view(out@) + Seq::<OutPointModel>::empty() =~= points_view(out@));
        }
        return ;
    }
    let ghost inputs = tx@.v_in;
    let mut k: usize = 0;
    proof {
        assert(inputs.take(0) =~= Seq::<TXInputModel>::empty());
        assert(points_view(out@) + Seq::<OutPointModel>::empty() =~= points_view(out@));
    }
    while k < tx.v_in.len()
        invariant
            k <= tx.v_in.len(),
            inputs == tx@.v_in,
            points_view(out@) == points_view(old(out)@) + inputs_spends(
                inputs.take(k as int),
                key_hash@,
            ),
        decreases tx.v_in.len() - k,
    {
        let input = &tx.v_in[k];
        proof {
            let grown = inputs.take(k + 1);
            assert(grown.drop_last() =~= inputs.take(k as int));
            assert(grown.last() == input@);
        }
        if input.use_key(key_hash) {
            match (input.tx_id, input.v_out_idx) {
                (Some(tx_id), Some(index)) => {
                    let point = OutPoint { tx_id, index };
                    proof {
                        assert(points_view(out@.push(point)) =~= points_view(out@).push(point@));
                        assert(points_view(out@).push(point@) =~= points_view(old(out)@)
                            + inputs_spends(inputs.take(k as int), key_hash@).push(point@));
                    }
                    out.push(point);
                },
                _ => {},
            }
        }
        k += 1;
    }
    proof {
        assert(inputs.take(k as int) =~= inputs);
    }
}

/// Appends the outputs that the transactions of a block spend for the owner of
/// `key_hash`.
pub fn collect_block_spends(
    transactions: &Vec<Transaction>,
    key_hash: &[u8],
    out: &mut Vec<OutPoint>,
)
    ensures
        points_view(final(out)@) == points_view(old(out)@) + block_spends(
            transactions_view(transactions@),
            key_hash@,
        ),
{
    let ghost all = transactions_view(transactions@);
    let mut t: usize = 0;
    proof {
        assert(all.take(0) =~= Seq::<TransactionModel>::empty());
        assert(points_view(out@) + Seq::<OutPointModel>::empty() =~= points_view(out@));
    }
    while t < transactions.len()
        invariant
            t <= transactions.len(),
            all == transactions_view(transactions@),
            points_view(out@) == points_view(old(out)@) + block_spends(
                all.take(t as int),
                key_hash@,
            ),
        decreases transactions.len() - t,
    {
        let ghost before = points_view(out@);
        collect_tx_spends(&transactions[t], key_hash, out);
        proof {
            let grown = all.take(t + 1);
            assert(grown.drop_last() =~= all.take(t as int));
            assert(grown.last() == transactions@[t as int]@);
            assert(points_view(out@) =~= points_view(old(out)@) + block_spends(grown, key_hash@));
        }
        t += 1;
    }
    proof {
        assert(all.take(t as int) =~= all);
    }
}

/// The outputs that a chain spends for the owner of `key_hash`.
pub fn collect_spends(blocks: &Vec<Block>, key_hash: &[u8]) -> (spent: Vec<OutPoint>)
    ensures
        points_view(spent@) == chain_spends(blocks_view(blocks@), key_hash@),
{
    let mut spent: Vec<OutPoint> = Vec::new();
    let ghost all = blocks_view(blocks@);
    let mut b: usize = 0;
    proof {
        assert(all.take(0) =~= Seq::<BlockModel>::empty());
        assert(points_view(spent@) =~= Seq::<OutPointModel>::empty());
    }
    while b < blocks.len()
        invariant
            b <= blocks.len(),
            all == blocks_view(blocks@),
            points_view(spent@) == chain_spends(all.take(b as int), key_hash@),
        decreases blocks.len() - b,
    {
        collect_block_spends(&blocks[b].transactions, key_hash, &mut spent);
        proof {
            let grown = all.take(b + 1);
            assert(grown.drop_last() =~= all.take(b as int));
            assert(grown.last() == blocks@[b as int]@);
        }
        b += 1;
    }
    proof {
        assert(all.take(b as int) =~= all);
    }
    spent
}

/// Tells whether the output `index` of transaction `tx_id` is among `spent`.
pub fn is_spent(spent: &Vec<OutPoint>, tx_id: &[u8; 32], index: usize) -> (found: bool)
    ensures
        found == points_view(spent@).contains(OutPointModel { tx_id: tx_id@, index }),
{
    let ghost wanted = OutPointModel { tx_id: tx_id@, index };
    let mut i: usize = 0;
    while i < spent.len()
        invariant
            i <= spent.len(),
            wanted == (OutPointModel { tx_id: tx_id@, index }),
            forall|k: int| 0 <= k < i ==> points_view(spent@)[k] != wanted,
        decreases spent.len() - i,
    {
        if spent[i].index == index && bytes_eq(spent[i].tx_id.as_slice(), tx_id.as_slice()) {
            proof {
                assert(points_view(spent@)[i as int] == wanted);
            }
            return true;
        }
        i += 1;
    }
    false
}

/// Appends the outputs of `tx` that are locked by `key_hash` and not among
/// `spent`.
pub fn collect_tx_unspent(
    tx: &Transaction,
    key_hash: &[u8],
    spent: &Vec<OutPoint>,
    out: &mut Vec<Unspent>,
)
    ensures
        unspent_view(final(out)@) == unspent_view(old(out)@) + tx_unspent(
            tx@,
            tx@.v_out.len(),
            key_hash@,
            points_view(spent@),
        ),
{
    let mut i: usize = 0;
    proof {
        assert(unspent_view(out@) + Seq::<UnspentModel>::empty() =~= unspent_view(out@));
    }
    while i < tx.v_out.len()
        invariant
            i <= tx.v_out.len(),
            unspent_view(out@) == unspent_view(old(out)@) + tx_unspent(
                tx@,
                i as nat,
                key_hash@,
                points_view(spent@),
            ),
        decreases tx.v_out.len() - i,
    {
        let output = &tx.v_out[i];
        proof {
            assert(tx@.v_out[i as int] == output@);
        }
        if output.is_locking_with_key(key_hash) && !is_spent(spent, &tx.id, i) {
            let item = Unspent { tx_id: tx.id, index: i, output: output.duplicate() };
            proof {
                assert(unspent_view(out@.push(item)) =~= unspent_view(out@).push(item@));
                assert(unspent_view(out@).push(item@) =~= unspent_view(old(out)@) + tx_unspent(
                    tx@,
                    i as nat,
                    key_hash@,
                    points_view(spent@),
                ).push(item@));
            }
            out.push(item);
        }
        i += 1;
    }
}

/// Appends the outputs of the transactions of a block that are locked by
/// `key_hash` and not among `spent`.
pub fn collect_block_unspent(
    transactions: &Vec<Transaction>,
    key_hash: &[u8],
    spent: &Vec<OutPoint>,
    out: &mut Vec<Unspent>,
)
    ensures
        unspent_view(final(out)@) == unspent_view(old(out)@) + block_unspent(
            transactions_view(transactions@),
            key_hash@,
            points_view(spent@),
        ),
{
    let ghost all = transactions_view(transactions@);
    let mut t: usize = 0;
    proof {
        assert(all.take(0) =~= Seq::<TransactionModel>::empty());
        assert(unspent_view(out@) + Seq::<UnspentModel>::empty() =~= unspent_view(out@));
    }
    while t < transactions.len()
        invariant
            t <= transactions.len(),
            all == transactions_view(transactions@),
            unspent_view(out@) == unspent_view(old(out)@) + block_unspent(
                all.take(t as int),
                key_hash@,
                points_view(spent@),
            ),
        decreases transactions.len() - t,
    {
        collect_tx_unspent(&transactions[t], key_hash, spent, out);
        proof {
            let grown = all.take(t + 1);
            assert(grown.drop_last() =~= all.take(t as int));
            assert(grown.last() == transactions@[t as int]@);
            assert(unspent_view(out@) =~= unspent_view(old(out)@) + block_unspent(
                grown,
                key_hash@,
                points_view(spent@),
            ));
        }
        t += 1;
    }
    proof {
        assert(all.take(t as int) =~= all);
    }
}

/// The unspent outputs of the owner of `key_hash` in a chain, given from the
/// newest block to the oldest.
pub fn unspent_outputs(blocks: &Vec<Block>, key_hash: &[u8]) -> (found: Vec<Unspent>)
    ensures
        unspent_view(found@) == unspent(blocks_view(blocks@), key_hash@),
{
    let spent = collect_spends(blocks, key_hash);
    let mut found: Vec<Unspent> = Vec::new();
    let ghost all = blocks_view(blocks@);
    let mut b: usize = 0;
    proof {
        assert(all.take(0) =~= Seq::<BlockModel>::empty());
        assert(unspent_view(found@) =~= Seq::<UnspentModel>::empty());
    }
    while b < blocks.len()
        invariant
            b <= blocks.len(),
            all == blocks_view(blocks@),
            unspent_view(found@) == chain_unspent(
                all.take(b as int),
                key_hash@,
                points_view(spent@),
            ),
        decreases blocks.len() - b,
    {
        collect_block_unspent(&blocks[b].transactions, key_hash, &spent, &mut found);
        proof {
            let grown = all.take(b + 1);
            assert(grown.drop_last() =~= all.take(b as int));
            assert(grown.last() == blocks@[b as int]@);
        }
        b += 1;
    }
    proof {
        assert(all.take(b as int) =~= all);
    }
    found
}

/// The value of the first outputs of a run is no more than the value of the
/// whole run.
pub proof fn lemma_total_value_grows(items: Seq<UnspentModel>, count: int)
    requires
        0 <= count <= items.len(),
    ensures
        total_value(items.take(count)) <= total_value(items),
    decreases items.len(),
{
    if count == items.len() {
        assert(items.take(count) =~= items);
    } else {
        lemma_total_value_grows(items.drop_last(), count);
        assert(items.drop_last().take(count) =~= items.take(count));
    }
}

/// The sum of the values of a run of unspent outputs, or `None` exactly where
/// the sum does not fit in 64 bits.
pub fn sum_values(items: &Vec<Unspent>) -> (sum: Option<u64>)
    ensures
        sum matches Some(value) ==> value == total_value(unspent_view(items@)),
        sum is None ==> total_value(unspent_view(items@)) > u64::MAX,
{
    let ghost all = unspent_view(items@);
    let mut sum: u64 = 0;
    let mut i: usize = 0;
    proof {
        assert(all.take(0) =~= Seq::<UnspentModel>::empty());
    }
    while i < items.len()
        invariant
            i <= items.len(),
            all == unspent_view(items@),
            sum == total_value(all.take(i as int)),
        decreases items.len() - i,
    {
        proof {
            let grown = all.take(i + 1);
            assert(grown.drop_last() =~= all.take(i as int));
            assert(grown.last() == items@[i as int]@);
            lemma_total_value_grows(all, i + 1);
        }
        match sum.checked_add(items[i].output.value) {
            Some(next) => {
                sum = next;
            },
            None => {
                return None;
            },
        }
        i += 1;
    }
    proof {
        assert(all.take(i as int) =~= all);
    }
    Some(sum)
}

/// `count` is how many outputs a transfer of `amount` takes from the front of
/// `items`: outputs are taken one by one, at least one where there is any,
/// until their value reaches `amount` or none is left.
pub open spec fn first_fit(items: Seq<UnspentModel>, amount: u64, count: nat) -> bool {
    &&& count <= items.len()
    &&& items.len() > 0 ==> count >= 1
    &&& forall|fewer: int| 0 < fewer < count ==> total_value(#[trigger] items.take(fewer)) < amount
    &&& count < items.len() ==> total_value(items.take(count as int)) >= amount
}

/// Only one count is the first fit.
pub proof fn lemma_first_fit_unique(items: Seq<UnspentModel>, amount: u64, a: nat, b: nat)
    requires
        first_fit(items, amount, a),
        first_fit(items, amount, b),
    ensures
        a == b,
{
    if a < b {
        assert(total_value(items.take(a as int)) < amount);
    } else if b < a {
        assert(total_value(items.take(b as int)) < amount);
    }
}

/// Picks the outputs that pay for a transfer of `amount`: takes outputs from
/// the front of `items`, one by one, and stops as soon as their value reaches
/// `amount`. Returns the references of the outputs taken and their value.
pub fn select_outputs(items: &Vec<Unspent>, amount: u64) -> (picked: (Vec<OutPoint>, u128))
    ensures
        first_fit(unspent_view(items@), amount, picked.0@.len()),
        points_view(picked.0@) == points_of(unspent_view(items@).take(picked.0@.len() as int)),
        picked.1 == total_value(unspent_view(items@).take(picked.0@.len() as int)),
        picked.1 < amount + 0x1_0000_0000_0000_0000,
{
    let ghost all = unspent_view(items@);
    let mut points: Vec<OutPoint> = Vec::new();
    let mut value: u128 = 0;
    let mut i: usize = 0;
    proof {
        assert(all.take(0) =~= Seq::<UnspentModel>::empty());
        assert(points_view(points@) =~= points_of(all.take(0)));
    }
    while i < items.len()
        invariant
            i <= items.len(),
            all == unspent_view(items@),
            points@.len() == i,
            points_view(points@) == points_of(all.take(i as int)),
            value == total_value(all.take(i as int)),
            forall|fewer: int| 0 < fewer <= i ==> total_value(#[trigger] all.take(fewer)) < amount,
            value <= amount,
        decreases items.len() - i,
    {
        let point = OutPoint { tx_id: items[i].tx_id, index: items[i].index };
        proof {
            let grown = all.take(i + 1);
            assert(grown.drop_last() =~= all.take(i as int));
            assert(grown.last() == items@[i as int]@);
            let widened = points_view(points@.push(point));
            assert(point@ == items@[i as int]@.point());
            assert forall|k: int| 0 <= k < widened.len() implies widened[k] == points_of(
                grown,
            )[k] by {
                if k < i {
                    assert(widened[k] == points_view(points@)[k]);
                    assert(points_of(all.take(i as int))[k] == all.take(i as int)[k].point());
                }
            }
            assert(widened =~= points_of(grown));
            if i > 0 {
                assert(total_value(all.take(i as int)) < amount);
            }
        }
        points.push(point);
        value = value + items[i].output.value as u128;
        i += 1;
        if value >= amount as u128 {
            return (points, value);
        }
    }
    (points, value)
}

/// The bytes that an input carries in place of a signature.
pub open spec fn placeholder_signature() -> Seq<u8> {
    seq![
        110u8, 111u8, 116u8, 32u8, 105u8, 109u8, 112u8, 108u8, 101u8, 109u8, 101u8, 110u8, 116u8,
        101u8, 100u8, 32u8, 121u8, 101u8, 116u8,
    ]
}

/// The input that spends the output at `point` for the owner of `pub_key`.
pub open spec fn spending_input(point: OutPointModel, pub_key: Seq<u8>) -> TXInputModel {
    TXInputModel {
        tx_id: Some(point.tx_id),
        v_out_idx: Some(point.index),
        signature: Some(placeholder_signature()),
        pub_key,
    }
}

/// One input for each point, in the order of the points.
pub open spec fn spending_inputs(points: Seq<OutPointModel>, pub_key: Seq<u8>) -> Seq<
    TXInputModel,
> {
    points.map_values(|point: OutPointModel| spending_input(point, pub_key))
}

/// The outputs of a transfer of `amount` that is paid with outputs worth
/// `value`: one that pays `amount` to the payee and, where something is left,
/// one that gives the rest back to the payer.
pub open spec fn transfer_outputs(
    amount: u64,
    value: nat,
    to_hash: Seq<u8>,
    from_hash: Seq<u8>,
) -> Seq<TXOutputModel> {
    if value > amount {
        seq![
            TXOutputModel { value: amount, pub_key_hash: to_hash },
            TXOutputModel { value: (value - amount) as u64, pub_key_hash: from_hash },
        ]
    } else {
        seq![TXOutputModel { value: amount, pub_key_hash: to_hash }]
    }
}

/// The bytes that an input carries in place of a signature.
pub fn placeholder_signature_bytes() -> (bytes: Vec<u8>)
    ensures
        bytes@ == placeholder_signature(),
{
    let text: [u8; 19] = [
        110, 111, 116, 32, 105, 109, 112, 108, 101, 109, 101, 110, 116, 101, 100, 32, 121, 101,
        116,
    ];
    let bytes = slice_to_vec(text.as_slice());
    proof {
        assert(bytes@ =~= placeholder_signature());
    }
    bytes
}

/// Assembles the transaction that transfers `amount`: one input for each of
/// `points`, made with `pub_key`; one output that pays `amount` to the owner of
/// `to_hash`; and, where `value` is more than `amount`, a second output that
/// gives the rest back to the owner of `from_hash`. The id is derived from the
/// inputs and outputs.
pub fn build_transfer(
    points: &Vec<OutPoint>,
    value: u128,
    amount: u64,
    pub_key: &[u8],
    to_hash: Vec<u8>,
    from_hash: Vec<u8>,
) -> (tx: Transaction)
    requires
        amount <= value,
        value - amount <= u64::MAX,
    ensures
        tx@.v_in == spending_inputs(points_view(points@), pub_key@),
        tx@.v_out == transfer_outputs(amount, value as nat, to_hash@, from_hash@),
        tx@.well_formed(),
{
    let mut inputs: Vec<TXInput> = Vec::new();
    let ghost wanted = spending_inputs(points_view(points@), pub_key@);
    let mut i: usize = 0;
    while i < points.len()
        invariant
            i <= points.len(),
            wanted == spending_inputs(points_view(points@), pub_key@),
            inputs@.len() == i,
            forall|k: int| 0 <= k < i ==> (#[trigger] inputs@[k])@ == wanted[k],
        decreases points.len() - i,
    {
        let input = TXInput {
            tx_id: Some(points[i].tx_id),
            v_out_idx: Some(points[i].index),
            signature: Some(placeholder_signature_bytes()),
            pub_key: slice_to_vec(pub_key),
        };
        proof {
            assert(points_view(points@)[i as int] == points@[i as int]@);
        }
        inputs.push(input);
        i += 1;
    }
    let mut outputs: Vec<TXOutput> = Vec::new();
    outputs.push(TXOutput { value: amount, pub_key_hash: to_hash });
    if value > amount as u128 {
        outputs.push(TXOutput { value: (value - amount as u128) as u64, pub_key_hash: from_hash });
    }
    let id = hash_transaction(&inputs, &outputs);
    let tx = Transaction { id, v_in: inputs, v_out: outputs };
    proof {
        assert(tx@.v_in =~= wanted);
        assert(tx@.v_out =~= transfer_outputs(amount, value as nat, to_hash@, from_hash@));
        assert forall|k: int| 0 <= k < tx@.v_in.len() implies (#[trigger] tx@.v_in[k]).refers() by {
            assert(tx@.v_in[k] == spending_input(points_view(points@)[k], pub_key@));
        }
    }
    tx
}

/// An output that may be counted for the owner of `key_hash`: it is locked by
/// the key, and its reference is not among `spent`.
pub open spec fn counts_for(item: UnspentModel, key_hash: Seq<u8>, spent: Seq<OutPointModel>) -> bool {
    item.output.locked_by(key_hash) && !spent.contains(item.point())
}

/// Every output taken from a transaction is locked by the key and not among
/// the spent ones, and carries the id of that transaction.
pub proof fn lemma_tx_unspent_counts(
    tx: TransactionModel,
    count: nat,
    key_hash: Seq<u8>,
    spent: Seq<OutPointModel>,
)
    ensures
        forall|k: int|
            0 <= k < tx_unspent(tx, count, key_hash, spent).len() ==> {
                let item = #[trigger] tx_unspent(tx, count, key_hash, spent)[k];
                counts_for(item, key_hash, spent) && item.tx_id == tx.id
            },
    decreases count,
{
    if count > 0 {
        lemma_tx_unspent_counts(tx, (count - 1) as nat, key_hash, spent);
        let front = tx_unspent(tx, (count - 1) as nat, key_hash, spent);
        let all = tx_unspent(tx, count, key_hash, spent);
        assert forall|k: int| 0 <= k < all.len() implies counts_for(
            #[trigger] all[k],
            key_hash,
            spent,
        ) && all[k].tx_id == tx.id by {
            if k < front.len() {
                assert(all[k] == front[k]);
            }
        }
    }
}

/// Every output taken from the transactions of a block is locked by the key
/// and not among the spent ones.
pub proof fn lemma_block_unspent_counts(
    transactions: Seq<TransactionModel>,
    key_hash: Seq<u8>,
    spent: Seq<OutPointModel>,
)
    ensures
        forall|k: int|
            0 <= k < block_unspent(transactions, key_hash, spent).len() ==> counts_for(
                #[trigger] block_unspent(transactions, key_hash, spent)[k],
                key_hash,
                spent,
            ),
    decreases transactions.len(),
{
    if transactions.len() > 0 {
        let last = transactions.last();
        lemma_block_unspent_counts(transactions.drop_last(), key_hash, spent);
        lemma_tx_unspent_counts(last, last.v_out.len(), key_hash, spent);
        let front = block_unspent(transactions.drop_last(), key_hash, spent);
        let part = tx_unspent(last, last.v_out.len(), key_hash, spent);
        let all = block_unspent(transactions, key_hash, spent);
        assert(all == front + part);
        assert forall|k: int| 0 <= k < all.len() implies counts_for(
            #[trigger] all[k],
            key_hash,
            spent,
        ) by {
            if k < front.len() {
                assert(all[k] == front[k]);
            } else {
                assert(all[k] == part[k - front.len()]);
            }
        }
    }
}

/// Every output taken from a chain is locked by the key and not among the
/// spent ones.
pub proof fn lemma_chain_unspent_counts(
    chain: Seq<BlockModel>,
    key_hash: Seq<u8>,
    spent: Seq<OutPointModel>,
)
    ensures
        forall|k: int|
            0 <= k < chain_unspent(chain, key_hash, spent).len() ==> counts_for(
                #[trigger] chain_unspent(chain, key_hash, spent)[k],
                key_hash,
                spent,
            ),
    decreases chain.len(),
{
    if chain.len() > 0 {
        lemma_chain_unspent_counts(chain.drop_last(), key_hash, spent);
        lemma_block_unspent_counts(chain.last().transactions, key_hash, spent);
        let front = chain_unspent(chain.drop_last(), key_hash, spent);
        let part = block_unspent(chain.last().transactions, key_hash, spent);
        let all = chain_unspent(chain, key_hash, spent);
        assert(all == front + part);
        assert forall|k: int| 0 <= k < all.len() implies counts_for(
            #[trigger] all[k],
            key_hash,
            spent,
        ) by {
            if k < front.len() {
                assert(all[k] == front[k]);
            } else {
                assert(all[k] == part[k - front.len()]);
            }
        }
    }
}

/// Every unspent output of a key is locked by the key, and no input of the
/// chain that was made with the key refers to it.
pub proof fn lemma_unspent_counts(chain: Seq<BlockModel>, key_hash: Seq<u8>)
    ensures
        forall|k: int|
            0 <= k < unspent(chain, key_hash).len() ==> counts_for(
                #[trigger] unspent(chain, key_hash)[k],
                key_hash,
                chain_spends(chain, key_hash),
            ),
{
    lemma_chain_unspent_counts(chain, key_hash, chain_spends(chain, key_hash));
}

/// A chain in which nothing was spent: every block is empty, or holds a
/// single coinbase transaction.
pub open spec fn only_coinbases(chain: Seq<BlockModel>) -> bool {
    forall|i: int|
        0 <= i < chain.len() ==> (#[trigger] chain[i]).transactions.len() == 0 || (
        chain[i].transactions.len() == 1 && chain[i].transactions[0].is_coinbase())
}

/// A chain of coinbase transactions spends nothing.
pub proof fn lemma_coinbases_spend_nothing(chain: Seq<BlockModel>, key_hash: Seq<u8>)
    requires
        only_coinbases(chain),
    ensures
        chain_spends(chain, key_hash) == Seq::<OutPointModel>::empty(),
    decreases chain.len(),
{
    if chain.len() > 0 {
        let front = chain.drop_last();
        assert forall|i: int| 0 <= i < front.len() implies (#[trigger] front[i]).transactions.len()
            == 0 || (front[i].transactions.len() == 1
            && front[i].transactions[0].is_coinbase()) by {
            assert(front[i] == chain[i]);
        }
        lemma_coinbases_spend_nothing(front, key_hash);
        let txs = chain.last().transactions;
        assert(chain.last() == chain[chain.len() - 1]);
        if txs.len() == 1 {
            assert(txs.drop_last() =~= Seq::<TransactionModel>::empty());
            assert(block_spends(txs.drop_last(), key_hash) == Seq::<OutPointModel>::empty());
            assert(txs.last() == txs[0]);
            assert(block_spends(txs, key_hash) =~= Seq::<OutPointModel>::empty());
        }
        assert(chain_spends(chain, key_hash) =~= Seq::<OutPointModel>::empty());
    }
}

/// Blocks without transactions hold no unspent output.
pub proof fn lemma_empty_blocks_hold_nothing(
    chain: Seq<BlockModel>,
    key_hash: Seq<u8>,
    spent: Seq<OutPointModel>,
)
    requires
        forall|i: int| 0 <= i < chain.len() ==> (#[trigger] chain[i]).transactions.len() == 0,
    ensures
        chain_unspent(chain, key_hash, spent) == Seq::<UnspentModel>::empty(),
    decreases chain.len(),
{
    if chain.len() > 0 {
        let front = chain.drop_last();
        assert forall|i: int| 0 <= i < front.len() implies (#[trigger] front[i]).transactions.len()
            == 0 by {
            assert(front[i] == chain[i]);
        }
        lemma_empty_blocks_hold_nothing(front, key_hash, spent);
        assert(chain.last() == chain[chain.len() - 1]);
        assert(chain_unspent(chain, key_hash, spent) =~= Seq::<UnspentModel>::empty());
    }
}

/// After any number of empty blocks on top of a genesis block whose coinbase
/// transaction pays one output to a key, the key owns exactly that output,
/// and its balance is the value of that output.
pub proof fn lemma_subsidy_stays_unspent(
    chain: Seq<BlockModel>,
    key_hash: Seq<u8>,
    coinbase: TransactionModel,
)
    requires
        chain.len() >= 1,
        forall|i: int| 0 <= i < chain.len() - 1 ==> (#[trigger] chain[i]).transactions.len() == 0,
        chain.last().transactions == seq![coinbase],
        coinbase.is_coinbase(),
        coinbase.v_out.len() == 1,
        coinbase.v_out[0].locked_by(key_hash),
    ensures
        unspent(chain, key_hash) == seq![
            UnspentModel { tx_id: coinbase.id, index: 0, output: coinbase.v_out[0] },
        ],
        unspent(chain, key_hash).len() == 1,
        total_value(unspent(chain, key_hash)) == coinbase.v_out[0].value,
{
    let item = UnspentModel { tx_id: coinbase.id, index: 0, output: coinbase.v_out[0] };
    assert(chain.last() == chain[chain.len() - 1]);
    lemma_coinbases_spend_nothing(chain, key_hash);
    let spent = chain_spends(chain, key_hash);
    let front = chain.drop_last();
    assert forall|i: int| 0 <= i < front.len() implies (#[trigger] front[i]).transactions.len()
        == 0 by {
        assert(front[i] == chain[i]);
    }
    lemma_empty_blocks_hold_nothing(front, key_hash, spent);
    let txs = chain.last().transactions;
    assert(txs.drop_last() =~= Seq::<TransactionModel>::empty());
    assert(txs.last() == coinbase);
    assert(tx_unspent(coinbase, 0, key_hash, spent) == Seq::<UnspentModel>::empty());
    assert(tx_unspent(coinbase, 1, key_hash, spent) =~= seq![item]);
    assert(txs.len() == 1);
    assert(block_unspent(txs.drop_last(), key_hash, spent) == Seq::<UnspentModel>::empty());
    assert(block_unspent(txs, key_hash, spent) =~= seq![item]);
    assert(unspent(chain, key_hash) =~= seq![item]);
    let single = seq![item];
    assert(single.drop_last() =~= Seq::<UnspentModel>::empty());
    assert(total_value(single.drop_last()) == 0);
    assert(single.last() == item);
    assert(total_value(single) == item.output.value);
}

} // verus!
