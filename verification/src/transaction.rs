//! Transactions: inputs that refer to earlier outputs, outputs that lock value
//! to a key hash, and the id that is derived from both.

use crate::codec::{
    bytes_eq, bytes_field, lemma_parse_bytes_field, lemma_parse_hash, lemma_parse_optional_bytes_field,
    lemma_parse_optional_hash, lemma_parse_optional_index, lemma_parse_varint_u64,
    lemma_placed_split, optional_bytes_field, optional_bytes_view, optional_hash_bytes,
    optional_hash_view, optional_index_bytes, parse_bytes_field, parse_hash,
    parse_optional_bytes_field, parse_optional_hash, parse_optional_index, parse_varint_u64,
    placed, read_bytes_field, read_hash, read_optional_bytes_field, read_optional_hash,
    read_optional_index, read_varint_u64, varint_bytes, write_bytes_field,
    write_optional_bytes_field, write_optional_hash, write_optional_index, write_varint,
    append_bytes, HASH_LEN,
};
use crate::digest::{sha256, sha256_digest};
use crate::tools::{bytes2hex, decimal_chars, decimal_string, hash2str, prefixed_hex_text};
use crate::wallet::{
    address_key_hash, base58_decoded, extract_pub_key_hash, hash_pub_key, pub_key_hash,
    AddressError, ADDR_CHECKSUM_LEN,
};
use vstd::prelude::*;
use vstd::slice::*;
use vstd::string::*;

verus! {

/// Value paid by a coinbase transaction.
pub const SUBSIDY: u64 = 50;

/// Transaction input.
#[derive(Debug, Clone, PartialEq, Eq)]
pub struct TXInput {
    /// The id of the referenced transaction.
    pub tx_id: Option<[u8; 32]>,
    /// The index of the referenced output among that transaction's outputs.
    pub v_out_idx: Option<usize>,
    pub signature: Option<Vec<u8>>,
    pub pub_key: Vec<u8>,
}

/// What a transaction input holds.
pub struct TXInputModel {
    pub tx_id: Option<Seq<u8>>,
    pub v_out_idx: Option<usize>,
    pub signature: Option<Seq<u8>>,
    pub pub_key: Seq<u8>,
}

impl View for TXInput {
    type V = TXInputModel;

    open spec fn view(&self) -> TXInputModel {
        TXInputModel {
            tx_id: optional_hash_view(self.tx_id),
            v_out_idx: self.v_out_idx,
            signature: optional_bytes_view(self.signature),
            pub_key: self.pub_key@,
        }
    }
}

/// Transaction output.
#[derive(Debug, Clone, PartialEq, Eq)]
pub struct TXOutput {
    /// The amount of coin stored in the output; it is indivisible.
    pub value: u64,
    pub pub_key_hash: Vec<u8>,
}

/// What a transaction output holds.
pub struct TXOutputModel {
    pub value: u64,
    pub pub_key_hash: Seq<u8>,
}

impl View for TXOutput {
    type V = TXOutputModel;

    open spec fn view(&self) -> TXOutputModel {
        TXOutputModel { value: self.value, pub_key_hash: self.pub_key_hash@ }
    }
}

impl TXInputModel {
    /// The input can be written and read back: its hash has 32 bytes and its
    /// byte strings have lengths that fit 64 bits.
    pub open spec fn representable(self) -> bool {
        &&& self.tx_id matches Some(id) ==> id.len() == HASH_LEN
        &&& self.signature matches Some(s) ==> s.len() <= u64::MAX
        &&& self.pub_key.len() <= u64::MAX
    }

    /// The input refers to an output: it names a transaction and an index.
    pub open spec fn refers(self) -> bool {
        self.tx_id is Some && self.v_out_idx is Some
    }

    /// The input is one that the owner of `key_hash` could have made: the
    /// hash of its public key is `key_hash`.
    pub open spec fn spends_with(self, key_hash: Seq<u8>) -> bool {
        pub_key_hash(self.pub_key) == key_hash
    }

    /// The bytes of the input: referenced id, referenced index, signature,
    /// public key.
    pub open spec fn bytes(self) -> Seq<u8> {
        optional_hash_bytes(self.tx_id) + optional_index_bytes(self.v_out_idx)
            + optional_bytes_field(self.signature) + bytes_field(self.pub_key)
    }
}

impl TXOutputModel {
    /// The output can be written and read back.
    pub open spec fn representable(self) -> bool {
        self.pub_key_hash.len() <= u64::MAX
    }

    /// The output belongs to the owner of `key_hash`.
    pub open spec fn locked_by(self, key_hash: Seq<u8>) -> bool {
        self.pub_key_hash == key_hash
    }

    /// The bytes of the output: value, then key hash.
    pub open spec fn bytes(self) -> Seq<u8> {
        varint_bytes(self.value as nat) + bytes_field(self.pub_key_hash)
    }
}

/// Reads an input at `pos`.
pub open spec fn parse_input(data: Seq<u8>, pos: int) -> Option<(TXInputModel, int)> {
    match parse_optional_hash(data, pos) {
        Some((tx_id, p1)) => match parse_optional_index(data, p1) {
            Some((v_out_idx, p2)) => match parse_optional_bytes_field(data, p2) {
                Some((signature, p3)) => match parse_bytes_field(data, p3) {
                    Some((pub_key, p4)) => Some(
                        (TXInputModel { tx_id, v_out_idx, signature, pub_key }, p4),
                    ),
                    None => None,
                },
                None => None,
            },
            None => None,
        },
        None => None,
    }
}

/// Reads an output at `pos`.
pub open spec fn parse_output(data: Seq<u8>, pos: int) -> Option<(TXOutputModel, int)> {
    match parse_varint_u64(data, pos) {
        Some((value, p1)) => match parse_bytes_field(data, p1) {
            Some((pub_key_hash, p2)) => Some((TXOutputModel { value, pub_key_hash }, p2)),
            None => None,
        },
        None => None,
    }
}

/// Reading recovers a written input.
pub proof fn lemma_parse_input(data: Seq<u8>, pos: int, input: TXInputModel)
    requires
        input.representable(),
        placed(data, pos, input.bytes()),
    ensures
        parse_input(data, pos) == Some((input, pos + input.bytes().len())),
{
    let a = optional_hash_bytes(input.tx_id);
    let b = optional_index_bytes(input.v_out_idx);
    let c = optional_bytes_field(input.signature);
    let d = bytes_field(input.pub_key);
    lemma_placed_split(data, pos, a + b + c, d);
    lemma_placed_split(data, pos, a + b, c);
    lemma_placed_split(data, pos, a, b);
    lemma_parse_optional_hash(data, pos, input.tx_id);
    lemma_parse_optional_index(data, pos + a.len(), input.v_out_idx);
    lemma_parse_optional_bytes_field(data, pos + a.len() + b.len(), input.signature);
    lemma_parse_bytes_field(data, pos + a.len() + b.len() + c.len(), input.pub_key);
}

/// Reading recovers a written output.
pub proof fn lemma_parse_output(data: Seq<u8>, pos: int, output: TXOutputModel)
    requires
        output.representable(),
        placed(data, pos, output.bytes()),
    ensures
        parse_output(data, pos) == Some((output, pos + output.bytes().len())),
{
    let a = varint_bytes(output.value as nat);
    lemma_placed_split(data, pos, a, bytes_field(output.pub_key_hash));
    lemma_parse_varint_u64(data, pos, output.value);
    lemma_parse_bytes_field(data, pos + a.len(), output.pub_key_hash);
}

impl TXInput {
    /// Checks whether the input was made with the key whose hash is
    /// `pub_key_hash`. No signature is checked.
    pub fn use_key(&self, pub_key_hash: &[u8]) -> (uses: bool)
        ensures
            uses == self@.spends_with(pub_key_hash@),
    {
        let locking_hash = hash_pub_key(self.pub_key.as_slice());
        bytes_eq(pub_key_hash, locking_hash.as_slice())
    }

    /// Appends the bytes of the input.
    pub fn write(&self, out: &mut Vec<u8>)
        ensures
            final(out)@ == old(out)@ + self@.bytes(),
    {
        write_optional_hash(out, &self.tx_id);
        write_optional_index(out, &self.v_out_idx);
        write_optional_bytes_field(out, &self.signature);
        write_bytes_field(out, self.pub_key.as_slice());
        proof {
            assert(out@ =~= old(out)@ + self@.bytes());
        }
    }

    /// Reads an input at `pos`.
    pub fn read(data: &[u8], pos: usize) -> (found: Option<(TXInput, usize)>)
        ensures
            found matches Some((input, next)) ==> parse_input(data@, pos as int) == Some(
                (input@, next as int),
            ) && pos < next <= data@.len(),
            found is None ==> parse_input(data@, pos as int) is None,
    {
        let (tx_id, p1) = match read_optional_hash(data, pos) {
            Some(part) => part,
            None => {
                return None;
            },
        };
        let (v_out_idx, p2) = match read_optional_index(data, p1) {
            Some(part) => part,
            None => {
                return None;
            },
        };
        let (signature, p3) = match read_optional_bytes_field(data, p2) {
            Some(part) => part,
            None => {
                return None;
            },
        };
        let (pub_key, p4) = match read_bytes_field(data, p3) {
            Some(part) => part,
            None => {
                return None;
            },
        };
        Some((TXInput { tx_id, v_out_idx, signature, pub_key }, p4))
    }

    /// A copy of the input.
    pub fn duplicate(&self) -> (copy: TXInput)
        ensures
            copy@ == self@,
    {
        TXInput {
            tx_id: self.tx_id,
            v_out_idx: self.v_out_idx,
            signature: match &self.signature {
                Some(s) => Some(slice_to_vec(s.as_slice())),
                None => None,
            },
            pub_key: slice_to_vec(self.pub_key.as_slice()),
        }
    }
}

impl TXOutput {
    /// An output that pays `value` to the owner of `address`.
    ///
    /// Fails exactly where the address names no key hash.
    pub fn new(value: u64, address: &str) -> (made: Result<TXOutput, AddressError>)
        ensures
            made matches Ok(output) ==> output.value == value && address_key_hash(address@)
                == Some(output.pub_key_hash@),
            made is Err ==> address_key_hash(address@) is None,
            made == Err::<TXOutput, AddressError>(AddressError::NotBase58) <==> base58_decoded(
                address@,
            ) is None,
            made == Err::<TXOutput, AddressError>(AddressError::TooShort) <==> (base58_decoded(
                address@,
            ) matches Some(raw) && raw.len() <= ADDR_CHECKSUM_LEN),
    {
        match extract_pub_key_hash(address) {
            Ok(pub_key_hash) => Ok(TXOutput { value, pub_key_hash }),
            Err(e) => Err(e),
        }
    }

    /// Checks whether the output is locked with the key whose hash is
    /// `pub_key_hash`.
    pub fn is_locking_with_key(&self, pub_key_hash: &[u8]) -> (locked: bool)
        ensures
            locked == self@.locked_by(pub_key_hash@),
    {
        bytes_eq(self.pub_key_hash.as_slice(), pub_key_hash)
    }

    /// Appends the bytes of the output.
    pub fn write(&self, out: &mut Vec<u8>)
        ensures
            final(out)@ == old(out)@ + self@.bytes(),
    {
        write_varint(out, self.value as u128);
        write_bytes_field(out, self.pub_key_hash.as_slice());
        proof {
            assert(out@ =~= old(out)@ + self@.bytes());
        }
    }

    /// Reads an output at `pos`.
    pub fn read(data: &[u8], pos: usize) -> (found: Option<(TXOutput, usize)>)
        ensures
            found matches Some((output, next)) ==> parse_output(data@, pos as int) == Some(
                (output@, next as int),
            ) && pos < next <= data@.len(),
            found is None ==> parse_output(data@, pos as int) is None,
    {
        let (value, p1) = match read_varint_u64(data, pos) {
            Some(part) => part,
            None => {
                return None;
            },
        };
        let (pub_key_hash, p2) = match read_bytes_field(data, p1) {
            Some(part) => part,
            None => {
                return None;
            },
        };
        Some((TXOutput { value, pub_key_hash }, p2))
    }

    /// A copy of the output.
    pub fn duplicate(&self) -> (copy: TXOutput)
        ensures
            copy@ == self@,
    {
        TXOutput { value: self.value, pub_key_hash: slice_to_vec(self.pub_key_hash.as_slice()) }
    }
}

/// What a run of inputs holds, one by one.
pub open spec fn inputs_view(items: Seq<TXInput>) -> Seq<TXInputModel> {
    items.map_values(|item: TXInput| item@)
}

/// Every input of the run can be written and read back.
pub open spec fn inputs_representable(items: Seq<TXInputModel>) -> bool {
    forall|i: int| 0 <= i < items.len() ==> (#[trigger] items[i]).representable()
}

/// The bytes of a run of inputs, one after the other.
pub open spec fn inputs_bytes(items: Seq<TXInputModel>) -> Seq<u8>
    decreases items.len(),
{
    if items.len() == 0 {
        Seq::empty()
    } else {
        inputs_bytes(items.drop_last()) + items.last().bytes()
    }
}

/// A list of inputs in the format: how many there are, then each of them.
pub open spec fn input_list_bytes(items: Seq<TXInputModel>) -> Seq<u8> {
    varint_bytes(items.len()) + inputs_bytes(items)
}

/// Reads `count` inputs, one after the other, from `pos` on.
pub open spec fn parse_inputs(data: Seq<u8>, pos: int, count: nat) -> Option<
    (Seq<TXInputModel>, int),
>
    decreases count,
{
    if count == 0 {
        Some((Seq::empty(), pos))
    } else {
        match parse_inputs(data, pos, (count - 1) as nat) {
            Some((front, mid)) => match parse_input(data, mid) {
                Some((item, next)) => Some((front.push(item), next)),
                None => None,
            },
            None => None,
        }
    }
}

/// Reads a list of inputs at `pos`.
pub open spec fn parse_input_list(data: Seq<u8>, pos: int) -> Option<(Seq<TXInputModel>, int)> {
    match parse_varint_u64(data, pos) {
        Some((count, start)) => parse_inputs(data, start, count as nat),
        None => None,
    }
}

/// Once a input cannot be read, no longer run can be read either.
pub proof fn lemma_parse_inputs_stuck(data: Seq<u8>, pos: int, reached: nat, count: nat)
    requires
        reached <= count,
        parse_inputs(data, pos, reached) is None,
    ensures
        parse_inputs(data, pos, count) is None,
    decreases count,
{
    if reached < count {
        lemma_parse_inputs_stuck(data, pos, reached, (count - 1) as nat);
    }
}

/// Reading recovers a written run of inputs.
pub proof fn lemma_parse_inputs(data: Seq<u8>, pos: int, items: Seq<TXInputModel>)
    requires
        inputs_representable(items),
        placed(data, pos, inputs_bytes(items)),
    ensures
        parse_inputs(data, pos, items.len()) == Some((items, pos + inputs_bytes(items).len())),
    decreases items.len(),
{
    if items.len() > 0 {
        let front = items.drop_last();
        lemma_placed_split(data, pos, inputs_bytes(front), items.last().bytes());
        lemma_parse_inputs(data, pos, front);
        lemma_parse_input(data, pos + inputs_bytes(front).len(), items.last());
        assert(front.push(items.last()) =~= items);
    }
}

/// Reading recovers a written list of inputs.
pub proof fn lemma_parse_input_list(data: Seq<u8>, pos: int, items: Seq<TXInputModel>)
    requires
        inputs_representable(items),
        items.len() <= u64::MAX,
        placed(data, pos, input_list_bytes(items)),
    ensures
        parse_input_list(data, pos) == Some((items, pos + input_list_bytes(items).len())),
{
    let head = varint_bytes(items.len());
    lemma_placed_split(data, pos, head, inputs_bytes(items));
    lemma_parse_varint_u64(data, pos, items.len() as u64);
    lemma_parse_inputs(data, pos + head.len(), items);
}

/// Appends a list of inputs in the format.
pub fn write_inputs(out: &mut Vec<u8>, items: &Vec<TXInput>)
    ensures
        final(out)@ == old(out)@ + input_list_bytes(inputs_view(items@)),
{
    write_varint(out, items.len() as u128);
    let ghost all = inputs_view(items@);
    let mut i: usize = 0;
    proof {
        assert(all.take(0) =~= Seq::<TXInputModel>::empty());
        assert(out@ =~= old(out)@ + varint_bytes(items@.len()) + inputs_bytes(all.take(0)));
    }
    while i < items.len()
        invariant
            i <= items.len(),
            all == inputs_view(items@),
            out@ == old(out)@ + varint_bytes(items@.len()) + inputs_bytes(all.take(i as int)),
        decreases items.len() - i,
    {
        items[i].write(out);
        proof {
            let grown = all.take(i + 1);
            assert(grown.drop_last() =~= all.take(i as int));
            assert(grown.last() == items@[i as int]@);
            assert(out@ =~= old(out)@ + varint_bytes(items@.len()) + inputs_bytes(grown));
        }
        i += 1;
    }
    proof {
        assert(all.take(i as int) =~= all);
        assert(out@ =~= old(out)@ + input_list_bytes(all));
    }
}

/// Reads a list of inputs at `pos`.
pub fn read_inputs(data: &[u8], pos: usize) -> (found: Option<(Vec<TXInput>, usize)>)
    ensures
        found matches Some((items, next)) ==> parse_input_list(data@, pos as int) == Some(
            (inputs_view(items@), next as int),
        ) && pos < next <= data@.len(),
        found is None ==> parse_input_list(data@, pos as int) is None,
{
    let (count, start) = match read_varint_u64(data, pos) {
        Some(part) => part,
        None => {
            return None;
        },
    };
    let mut items: Vec<TXInput> = Vec::new();
    let mut at: usize = start;
    let mut i: u64 = 0;
    proof {
        assert(inputs_view(items@) =~= Seq::<TXInputModel>::empty());
    }
    while i < count
        invariant
            i <= count,
            start <= at <= data@.len(),
            pos < start,
            parse_varint_u64(data@, pos as int) == Some((count, start as int)),
            parse_inputs(data@, start as int, i as nat) == Some((inputs_view(items@), at as int)),
        decreases count - i,
    {
        match TXInput::read(data, at) {
            Some((item, next)) => {
                proof {
                    assert(inputs_view(items@.push(item)) =~= inputs_view(items@).push(item@));
                }
                items.push(item);
                at = next;
                i += 1;
            },
            None => {
                proof {
                    assert(parse_inputs(data@, start as int, (i + 1) as nat) is None);
                    lemma_parse_inputs_stuck(data@, start as int, (i + 1) as nat, count as nat);
                }
                return None;
            },
        }
    }
    Some((items, at))
}

/// A copy of a list of inputs.
pub fn duplicate_inputs(items: &Vec<TXInput>) -> (copy: Vec<TXInput>)
    ensures
        inputs_view(copy@) == inputs_view(items@),
{
    let mut copy: Vec<TXInput> = Vec::new();
    let mut i: usize = 0;
    while i < items.len()
        invariant
            i <= items.len(),
            copy@.len() == i,
            inputs_view(copy@) == inputs_view(items@).take(i as int),
        decreases items.len() - i,
    {
        let item = items[i].duplicate();
        proof {
            let before = inputs_view(copy@);
            let after = inputs_view(copy@.push(item));
            let target = inputs_view(items@).take(i + 1);
            assert forall|k: int| 0 <= k < after.len() implies after[k] == target[k] by {
                if k < i {
                    assert(after[k] == before[k]);
                    assert(before[k] == inputs_view(items@).take(i as int)[k]);
                }
            }
            assert(after =~= target);
        }
        copy.push(item);
        i += 1;
    }
    proof {
        assert(inputs_view(items@).take(i as int) =~= inputs_view(items@));
    }
    copy
}

/// What a run of outputs holds, one by one.
pub open spec fn outputs_view(items: Seq<TXOutput>) -> Seq<TXOutputModel> {
    items.map_values(|item: TXOutput| item@)
}

/// Every output of the run can be written and read back.
pub open spec fn outputs_representable(items: Seq<TXOutputModel>) -> bool {
    forall|i: int| 0 <= i < items.len() ==> (#[trigger] items[i]).representable()
}

/// The bytes of a run of outputs, one after the other.
pub open spec fn outputs_bytes(items: Seq<TXOutputModel>) -> Seq<u8>
    decreases items.len(),
{
    if items.len() == 0 {
        Seq::empty()
    } else {
        outputs_bytes(items.drop_last()) + items.last().bytes()
    }
}

/// A list of outputs in the format: how many there are, then each of them.
pub open spec fn output_list_bytes(items: Seq<TXOutputModel>) -> Seq<u8> {
    varint_bytes(items.len()) + outputs_bytes(items)
}

/// Reads `count` outputs, one after the other, from `pos` on.
pub open spec fn parse_outputs(data: Seq<u8>, pos: int, count: nat) -> Option<
    (Seq<TXOutputModel>, int),
>
    decreases count,
{
    if count == 0 {
        Some((Seq::empty(), pos))
    } else {
        match parse_outputs(data, pos, (count - 1) as nat) {
            Some((front, mid)) => match parse_output(data, mid) {
                Some((item, next)) => Some((front.push(item), next)),
                None => None,
            },
            None => None,
        }
    }
}

/// Reads a list of outputs at `pos`.
pub open spec fn parse_output_list(data: Seq<u8>, pos: int) -> Option<(Seq<TXOutputModel>, int)> {
    match parse_varint_u64(data, pos) {
        Some((count, start)) => parse_outputs(data, start, count as nat),
        None => None,
    }
}

/// Once a output cannot be read, no longer run can be read either.
pub proof fn lemma_parse_outputs_stuck(data: Seq<u8>, pos: int, reached: nat, count: nat)
    requires
        reached <= count,
        parse_outputs(data, pos, reached) is None,
    ensures
        parse_outputs(data, pos, count) is None,
    decreases count,
{
    if reached < count {
        lemma_parse_outputs_stuck(data, pos, reached, (count - 1) as nat);
    }
}

/// Reading recovers a written run of outputs.
pub proof fn lemma_parse_outputs(data: Seq<u8>, pos: int, items: Seq<TXOutputModel>)
    requires
        outputs_representable(items),
        placed(data, pos, outputs_bytes(items)),
    ensures
        parse_outputs(data, pos, items.len()) == Some((items, pos + outputs_bytes(items).len())),
    decreases items.len(),
{
    if items.len() > 0 {
        let front = items.drop_last();
        lemma_placed_split(data, pos, outputs_bytes(front), items.last().bytes());
        lemma_parse_outputs(data, pos, front);
        lemma_parse_output(data, pos + outputs_bytes(front).len(), items.last());
        assert(front.push(items.last()) =~= items);
    }
}

/// Reading recovers a written list of outputs.
pub proof fn lemma_parse_output_list(data: Seq<u8>, pos: int, items: Seq<TXOutputModel>)
    requires
        outputs_representable(items),
        items.len() <= u64::MAX,
        placed(data, pos, output_list_bytes(items)),
    ensures
        parse_output_list(data, pos) == Some((items, pos + output_list_bytes(items).len())),
{
    let head = varint_bytes(items.len());
    lemma_placed_split(data, pos, head, outputs_bytes(items));
    lemma_parse_varint_u64(data, pos, items.len() as u64);
    lemma_parse_outputs(data, pos + head.len(), items);
}

/// Appends a list of outputs in the format.
pub fn write_outputs(out: &mut Vec<u8>, items: &Vec<TXOutput>)
    ensures
        final(out)@ == old(out)@ + output_list_bytes(outputs_view(items@)),
{
    write_varint(out, items.len() as u128);
    let ghost all = outputs_view(items@);
    let mut i: usize = 0;
    proof {
        assert(all.take(0) =~= Seq::<TXOutputModel>::empty());
        assert(out@ =~= old(out)@ + varint_bytes(items@.len()) + outputs_bytes(all.take(0)));
    }
    while i < items.len()
        invariant
            i <= items.len(),
            all == outputs_view(items@),
            out@ == old(out)@ + varint_bytes(items@.len()) + outputs_bytes(all.take(i as int)),
        decreases items.len() - i,
    {
        items[i].write(out);
        proof {
            let grown = all.take(i + 1);
            assert(grown.drop_last() =~= all.take(i as int));
            assert(grown.last() == items@[i as int]@);
            assert(out@ =~= old(out)@ + varint_bytes(items@.len()) + outputs_bytes(grown));
        }
        i += 1;
    }
    proof {
        assert(all.take(i as int) =~= all);
        assert(out@ =~= old(out)@ + output_list_bytes(all));
    }
}

/// Reads a list of outputs at `pos`.
pub fn read_outputs(data: &[u8], pos: usize) -> (found: Option<(Vec<TXOutput>, usize)>)
    ensures
        found matches Some((items, next)) ==> parse_output_list(data@, pos as int) == Some(
            (outputs_view(items@), next as int),
        ) && pos < next <= data@.len(),
        found is None ==> parse_output_list(data@, pos as int) is None,
{
    let (count, start) = match read_varint_u64(data, pos) {
        Some(part) => part,
        None => {
            return None;
        },
    };
    let mut items: Vec<TXOutput> = Vec::new();
    let mut at: usize = start;
    let mut i: u64 = 0;
    proof {
        assert(outputs_view(items@) =~= Seq::<TXOutputModel>::empty());
    }
    while i < count
        invariant
            i <= count,
            start <= at <= data@.len(),
            pos < start,
            parse_varint_u64(data@, pos as int) == Some((count, start as int)),
            parse_outputs(data@, start as int, i as nat) == Some((outputs_view(items@), at as int)),
        decreases count - i,
    {
        match TXOutput::read(data, at) {
            Some((item, next)) => {
                proof {
                    assert(outputs_view(items@.push(item)) =~= outputs_view(items@).push(item@));
                }
                items.push(item);
                at = next;
                i += 1;
            },
            None => {
                proof {
                    assert(parse_outputs(data@, start as int, (i + 1) as nat) is None);
                    lemma_parse_outputs_stuck(data@, start as int, (i + 1) as nat, count as nat);
                }
                return None;
            },
        }
    }
    Some((items, at))
}

/// A copy of a list of outputs.
pub fn duplicate_outputs(items: &Vec<TXOutput>) -> (copy: Vec<TXOutput>)
    ensures
        outputs_view(copy@) == outputs_view(items@),
{
    let mut copy: Vec<TXOutput> = Vec::new();
    let mut i: usize = 0;
    while i < items.len()
        invariant
            i <= items.len(),
            copy@.len() == i,
            outputs_view(copy@) == outputs_view(items@).take(i as int),
        decreases items.len() - i,
    {
        let item = items[i].duplicate();
        proof {
            let before = outputs_view(copy@);
            let after = outputs_view(copy@.push(item));
            let target = outputs_view(items@).take(i + 1);
            assert forall|k: int| 0 <= k < after.len() implies after[k] == target[k] by {
                if k < i {
                    assert(after[k] == before[k]);
                    assert(before[k] == outputs_view(items@).take(i as int)[k]);
                }
            }
            assert(after =~= target);
        }
        copy.push(item);
        i += 1;
    }
    proof {
        assert(outputs_view(items@).take(i as int) =~= outputs_view(items@));
    }
    copy
}

/// A transaction: inputs that refer to outputs of other transactions, and the
/// outputs it creates, which later inputs may refer to.
#[derive(Debug, Clone, PartialEq, Eq)]
pub struct Transaction {
    pub id: [u8; 32],
    pub v_in: Vec<TXInput>,
    pub v_out: Vec<TXOutput>,
}

/// What a transaction holds.
pub struct TransactionModel {
    pub id: Seq<u8>,
    pub v_in: Seq<TXInputModel>,
    pub v_out: Seq<TXOutputModel>,
}

impl View for Transaction {
    type V = TransactionModel;

    open spec fn view(&self) -> TransactionModel {
        TransactionModel {
            id: self.id@,
            v_in: inputs_view(self.v_in@),
            v_out: outputs_view(self.v_out@),
        }
    }
}

/// The id of a transaction with these inputs and outputs: the SHA-256 of the
/// bytes of the input list followed by the bytes of the output list.
pub open spec fn transaction_id(v_in: Seq<TXInputModel>, v_out: Seq<TXOutputModel>) -> Seq<u8> {
    sha256_digest(input_list_bytes(v_in) + output_list_bytes(v_out))
}

/// The text a coinbase input carries where none is given.
pub open spec fn default_memo(to: Seq<char>) -> Seq<char> {
    "Reword to "@ + to
}

/// The single input of a coinbase transaction: it refers to no output and
/// carries the memo in place of a public key.
pub open spec fn coinbase_input(memo: Seq<char>) -> TXInputModel {
    TXInputModel {
        tx_id: None,
        v_out_idx: None,
        signature: None,
        pub_key: vstd::utf8::encode_utf8(memo),
    }
}

/// The coinbase transaction that carries `memo` and pays the subsidy to the
/// owner of `key_hash`: one input that refers to nothing, one output, and
/// the id that is derived from them.
pub open spec fn coinbase_transaction(memo: Seq<char>, key_hash: Seq<u8>) -> TransactionModel {
    let v_in = seq![coinbase_input(memo)];
    let v_out = seq![TXOutputModel { value: SUBSIDY, pub_key_hash: key_hash }];
    TransactionModel { id: transaction_id(v_in, v_out), v_in, v_out }
}

impl TransactionModel {
    /// The transaction can be written and read back.
    pub open spec fn representable(self) -> bool {
        &&& self.id.len() == HASH_LEN
        &&& self.v_in.len() <= u64::MAX
        &&& self.v_out.len() <= u64::MAX
        &&& inputs_representable(self.v_in)
        &&& outputs_representable(self.v_out)
    }

    /// A coinbase transaction has exactly one input, and that input names no
    /// transaction.
    pub open spec fn is_coinbase(self) -> bool {
        self.v_in.len() == 1 && self.v_in[0].tx_id is None
    }

    /// The id is the one derived from the inputs and outputs.
    pub open spec fn id_derived(self) -> bool {
        self.id == transaction_id(self.v_in, self.v_out)
    }

    /// Every input of a transaction that is not a coinbase refers to an
    /// output.
    pub open spec fn inputs_refer(self) -> bool {
        !self.is_coinbase() ==> forall|i: int|
            0 <= i < self.v_in.len() ==> (#[trigger] self.v_in[i]).refers()
    }

    /// The bytes of the transaction: id, input list, output list.
    pub open spec fn bytes(self) -> Seq<u8> {
        self.id + input_list_bytes(self.v_in) + output_list_bytes(self.v_out)
    }
}

/// Reads a transaction at `pos`.
pub open spec fn parse_transaction(data: Seq<u8>, pos: int) -> Option<(TransactionModel, int)> {
    match parse_hash(data, pos) {
        Some((id, p1)) => match parse_input_list(data, p1) {
            Some((v_in, p2)) => match parse_output_list(data, p2) {
                Some((v_out, p3)) => Some((TransactionModel { id, v_in, v_out }, p3)),
                None => None,
            },
            None => None,
        },
        None => None,
    }
}

/// Reading recovers a written transaction.
pub proof fn lemma_parse_transaction(data: Seq<u8>, pos: int, tx: TransactionModel)
    requires
        tx.representable(),
        placed(data, pos, tx.bytes()),
    ensures
        parse_transaction(data, pos) == Some((tx, pos + tx.bytes().len())),
{
    let a = tx.id;
    let b = input_list_bytes(tx.v_in);
    let c = output_list_bytes(tx.v_out);
    lemma_placed_split(data, pos, a + b, c);
    lemma_placed_split(data, pos, a, b);
    lemma_parse_hash(data, pos, tx.id);
    lemma_parse_input_list(data, pos + a.len(), tx.v_in);
    lemma_parse_output_list(data, pos + a.len() + b.len(), tx.v_out);
}

/// Whatever a program holds as an input can be written and read back.
pub proof fn lemma_input_representable(input: TXInput)
    ensures
        input@.representable(),
{
    assert(input.pub_key@.len() == input.pub_key.len());
    match input.signature {
        Some(s) => {
            assert(s@.len() == s.len());
        },
        None => {},
    }
    match input.tx_id {
        Some(id) => {
            assert(id@.len() == HASH_LEN);
        },
        None => {},
    }
}

/// Whatever a program holds as an output can be written and read back.
pub proof fn lemma_output_representable(output: TXOutput)
    ensures
        output@.representable(),
{
    assert(output.pub_key_hash@.len() == output.pub_key_hash.len());
}

/// Whatever a program holds as a transaction can be written and read back.
pub proof fn lemma_transaction_representable(tx: Transaction)
    ensures
        tx@.representable(),
{
    assert(tx.id@.len() == HASH_LEN);
    assert(tx.v_in@.len() == tx.v_in.len());
    assert(tx.v_out@.len() == tx.v_out.len());
    assert forall|i: int| 0 <= i < tx@.v_in.len() implies (
    #[trigger] tx@.v_in[i]).representable() by {
        lemma_input_representable(tx.v_in@[i]);
    }
    assert forall|i: int| 0 <= i < tx@.v_out.len() implies (
    #[trigger] tx@.v_out[i]).representable() by {
        lemma_output_representable(tx.v_out@[i]);
    }
}

/// Writing a transaction and reading the bytes back gives the transaction, in
/// every field, and reaches the end of what was written.
pub proof fn lemma_transaction_round_trip(tx: Transaction)
    ensures
        parse_transaction(tx@.bytes(), 0) == Some((tx@, tx@.bytes().len() as int)),
{
    lemma_transaction_representable(tx);
    crate::codec::lemma_placed_whole(tx@.bytes());
    lemma_parse_transaction(tx@.bytes(), 0, tx@);
}

/// Two transactions with the same inputs and outputs, each with the id that
/// is derived from them, have the same id.
pub proof fn lemma_id_determined_by_content(first: TransactionModel, second: TransactionModel)
    requires
        first.id_derived(),
        second.id_derived(),
        first.v_in == second.v_in,
        first.v_out == second.v_out,
    ensures
        first.id == second.id,
        first == second,
{
}

/// Computes the id of a transaction from its inputs and outputs: the SHA-256 of
/// the bytes of the input list followed by the bytes of the output list.
pub fn hash_transaction(v_in: &Vec<TXInput>, v_out: &Vec<TXOutput>) -> (id: [u8; 32])
    ensures
        id@ == transaction_id(inputs_view(v_in@), outputs_view(v_out@)),
{
    let mut content: Vec<u8> = Vec::new();
    write_inputs(&mut content, v_in);
    write_outputs(&mut content, v_out);
    proof {
        assert(content@ =~= input_list_bytes(inputs_view(v_in@)) + output_list_bytes(
            outputs_view(v_out@),
        ));
    }
    sha256(content.as_slice())
}

impl Transaction {
    /// Creates a coinbase transaction: one input that refers to no output and
    /// carries `data` (or, where none is given, a text that names the
    /// recipient), and one output that pays the subsidy to `to`.
    ///
    /// Fails exactly where `to` names no key hash.
    pub fn new_coinbase_tx(to: &str, data: Option<String>) -> (made: Result<
        Transaction,
        AddressError,
    >)
        ensures
            made matches Ok(tx) ==> {
                &&& address_key_hash(to@) matches Some(key_hash) && tx@ == coinbase_transaction(
                    match data {
                        Some(text) => text@,
                        None => default_memo(to@),
                    },
                    key_hash,
                )
                &&& tx@.well_formed()
                &&& tx@.is_coinbase()
            },
            made is Err ==> address_key_hash(to@) is None,
            made == Err::<Transaction, AddressError>(AddressError::NotBase58) <==> base58_decoded(
                to@,
            ) is None,
            made == Err::<Transaction, AddressError>(AddressError::TooShort) <==> (base58_decoded(
                to@,
            ) matches Some(raw) && raw.len() <= ADDR_CHECKSUM_LEN),
    {
        let output = match TXOutput::new(SUBSIDY, to) {
            Ok(output) => output,
            Err(e) => {
                return Err(e);
            },
        };
        let memo: String = match data {
            Some(text) => text,
            None => String::from_str("Reword to ").concat(to),
        };
        let input = TXInput {
            tx_id: None,
            v_out_idx: None,
            signature: None,
            pub_key: slice_to_vec(memo.as_str().as_bytes()),
        };
        let mut v_in: Vec<TXInput> = Vec::new();
        v_in.push(input);
        let mut v_out: Vec<TXOutput> = Vec::new();
        v_out.push(output);
        let id = hash_transaction(&v_in, &v_out);
        let tx = Transaction { id, v_in, v_out };
        proof {
            assert(tx@.v_in =~= seq![tx.v_in@[0]@]);
            assert(tx@.v_out =~= seq![tx.v_out@[0]@]);
        }
        Ok(tx)
    }

    /// Determines whether it is a coinbase transaction: it has exactly one
    /// input, and that input names no transaction.
    pub fn is_coinbase_tx(&self) -> (coinbase: bool)
        ensures
            coinbase == self@.is_coinbase(),
            coinbase == (self.v_in@.len() == 1 && self.v_in@[0].tx_id is None),
    {
        proof {
            if self.v_in@.len() == 1 {
                assert(self@.v_in[0] == self.v_in@[0]@);
            }
        }
        self.v_in.len() == 1 && self.v_in[0].tx_id.is_none()
    }

    /// Appends the bytes of the transaction.
    pub fn write(&self, out: &mut Vec<u8>)
        ensures
            final(out)@ == old(out)@ + self@.bytes(),
    {
        append_bytes(out, self.id.as_slice());
        write_inputs(out, &self.v_in);
        write_outputs(out, &self.v_out);
        proof {
            assert(out@ =~= old(out)@ + self@.bytes());
        }
    }

    /// Reads a transaction at `pos`.
    pub fn read(data: &[u8], pos: usize) -> (found: Option<(Transaction, usize)>)
        ensures
            found matches Some((tx, next)) ==> parse_transaction(data@, pos as int) == Some(
                (tx@, next as int),
            ) && pos < next <= data@.len(),
            found is None ==> parse_transaction(data@, pos as int) is None,
    {
        let (id, p1) = match read_hash(data, pos) {
            Some(part) => part,
            None => {
                return None;
            },
        };
        let (v_in, p2) = match read_inputs(data, p1) {
            Some(part) => part,
            None => {
                return None;
            },
        };
        let (v_out, p3) = match read_outputs(data, p2) {
            Some(part) => part,
            None => {
                return None;
            },
        };
        Some((Transaction { id, v_in, v_out }, p3))
    }

    /// Serializes the transaction to bytes.
    pub fn encode(&self) -> (bytes: Vec<u8>)
        ensures
            bytes@ == self@.bytes(),
    {
        let mut bytes: Vec<u8> = Vec::new();
        self.write(&mut bytes);
        proof {
            assert(bytes@ =~= self@.bytes());
        }
        bytes
    }

    /// Reads a transaction from the start of `data`; what follows it is
    /// ignored. `None` where the bytes do not start with a transaction.
    pub fn decode(data: &[u8]) -> (found: Option<Transaction>)
        ensures
            found matches Some(tx) ==> (parse_transaction(data@, 0) matches Some((model, _))
                && model == tx@),
            found is None ==> parse_transaction(data@, 0) is None,
    {
        match Transaction::read(data, 0) {
            Some((tx, _)) => Some(tx),
            None => None,
        }
    }

    /// A copy of the transaction.
    pub fn duplicate(&self) -> (copy: Transaction)
        ensures
            copy@ == self@,
    {
        Transaction {
            id: self.id,
            v_in: duplicate_inputs(&self.v_in),
            v_out: duplicate_outputs(&self.v_out),
        }
    }
}

/// What a run of transactions holds, one by one.
pub open spec fn transactions_view(items: Seq<Transaction>) -> Seq<TransactionModel> {
    items.map_values(|item: Transaction| item@)
}

/// Every transaction of the run can be written and read back.
pub open spec fn transactions_representable(items: Seq<TransactionModel>) -> bool {
    forall|i: int| 0 <= i < items.len() ==> (#[trigger] items[i]).representable()
}

/// The bytes of a run of transactions, one after the other.
pub open spec fn transactions_bytes(items: Seq<TransactionModel>) -> Seq<u8>
    decreases items.len(),
{
    if items.len() == 0 {
        Seq::empty()
    } else {
        transactions_bytes(items.drop_last()) + items.last().bytes()
    }
}

/// A list of transactions in the format: how many there are, then each of them.
pub open spec fn transaction_list_bytes(items: Seq<TransactionModel>) -> Seq<u8> {
    varint_bytes(items.len()) + transactions_bytes(items)
}

/// Reads `count` transactions, one after the other, from `pos` on.
pub open spec fn parse_transactions(data: Seq<u8>, pos: int, count: nat) -> Option<
    (Seq<TransactionModel>, int),
>
    decreases count,
{
    if count == 0 {
        Some((Seq::empty(), pos))
    } else {
        match parse_transactions(data, pos, (count - 1) as nat) {
            Some((front, mid)) => match parse_transaction(data, mid) {
                Some((item, next)) => Some((front.push(item), next)),
                None => None,
            },
            None => None,
        }
    }
}

/// Reads a list of transactions at `pos`.
pub open spec fn parse_transaction_list(data: Seq<u8>, pos: int) -> Option<(Seq<TransactionModel>, int)> {
    match parse_varint_u64(data, pos) {
        Some((count, start)) => parse_transactions(data, start, count as nat),
        None => None,
    }
}

/// Once a transaction cannot be read, no longer run can be read either.
pub proof fn lemma_parse_transactions_stuck(data: Seq<u8>, pos: int, reached: nat, count: nat)
    requires
        reached <= count,
        parse_transactions(data, pos, reached) is None,
    ensures
        parse_transactions(data, pos, count) is None,
    decreases count,
{
    if reached < count {
        lemma_parse_transactions_stuck(data, pos, reached, (count - 1) as nat);
    }
}

/// Reading recovers a written run of transactions.
pub proof fn lemma_parse_transactions(data: Seq<u8>, pos: int, items: Seq<TransactionModel>)
    requires
        transactions_representable(items),
        placed(data, pos, transactions_bytes(items)),
    ensures
        parse_transactions(data, pos, items.len()) == Some((items, pos + transactions_bytes(items).len())),
    decreases items.len(),
{
    if items.len() > 0 {
        let front = items.drop_last();
        lemma_placed_split(data, pos, transactions_bytes(front), items.last().bytes());
        lemma_parse_transactions(data, pos, front);
        lemma_parse_transaction(data, pos + transactions_bytes(front).len(), items.last());
        assert(front.push(items.last()) =~= items);
    }
}

/// Reading recovers a written list of transactions.
pub proof fn lemma_parse_transaction_list(data: Seq<u8>, pos: int, items: Seq<TransactionModel>)
    requires
        transactions_representable(items),
        items.len() <= u64::MAX,
        placed(data, pos, transaction_list_bytes(items)),
    ensures
        parse_transaction_list(data, pos) == Some((items, pos + transaction_list_bytes(items).len())),
{
    let head = varint_bytes(items.len());
    lemma_placed_split(data, pos, head, transactions_bytes(items));
    lemma_parse_varint_u64(data, pos, items.len() as u64);
    lemma_parse_transactions(data, pos + head.len(), items);
}

/// Appends a list of transactions in the format.
pub fn write_transactions(out: &mut Vec<u8>, items: &Vec<Transaction>)
    ensures
        final(out)@ == old(out)@ + transaction_list_bytes(transactions_view(items@)),
{
    write_varint(out, items.len() as u128);
    let ghost all = transactions_view(items@);
    let mut i: usize = 0;
    proof {
        assert(all.take(0) =~= Seq::<TransactionModel>::empty());
        assert(out@ =~= old(out)@ + varint_bytes(items@.len()) + transactions_bytes(all.take(0)));
    }
    while i < items.len()
        invariant
            i <= items.len(),
            all == transactions_view(items@),
            out@ == old(out)@ + varint_bytes(items@.len()) + transactions_bytes(all.take(i as int)),
        decreases items.len() - i,
    {
        items[i].write(out);
        proof {
            let grown = all.take(i + 1);
            assert(grown.drop_last() =~= all.take(i as int));
            assert(grown.last() == items@[i as int]@);
            assert(out@ =~= old(out)@ + varint_bytes(items@.len()) + transactions_bytes(grown));
        }
        i += 1;
    }
    proof {
        assert(all.take(i as int) =~= all);
        assert(out@ =~= old(out)@ + transaction_list_bytes(all));
    }
}

/// Reads a list of transactions at `pos`.
pub fn read_transactions(data: &[u8], pos: usize) -> (found: Option<(Vec<Transaction>, usize)>)
    ensures
        found matches Some((items, next)) ==> parse_transaction_list(data@, pos as int) == Some(
            (transactions_view(items@), next as int),
        ) && pos < next <= data@.len(),
        found is None ==> parse_transaction_list(data@, pos as int) is None,
{
    let (count, start) = match read_varint_u64(data, pos) {
        Some(part) => part,
        None => {
            return None;
        },
    };
    let mut items: Vec<Transaction> = Vec::new();
    let mut at: usize = start;
    let mut i: u64 = 0;
    proof {
        assert(transactions_view(items@) =~= Seq::<TransactionModel>::empty());
    }
    while i < count
        invariant
            i <= count,
            start <= at <= data@.len(),
            pos < start,
            parse_varint_u64(data@, pos as int) == Some((count, start as int)),
            parse_transactions(data@, start as int, i as nat) == Some((transactions_view(items@), at as int)),
        decreases count - i,
    {
        match Transaction::read(data, at) {
            Some((item, next)) => {
                proof {
                    assert(transactions_view(items@.push(item)) =~= transactions_view(items@).push(item@));
                }
                items.push(item);
                at = next;
                i += 1;
            },
            None => {
                proof {
                    assert(parse_transactions(data@, start as int, (i + 1) as nat) is None);
                    lemma_parse_transactions_stuck(data@, start as int, (i + 1) as nat, count as nat);
                }
                return None;
            },
        }
    }
    Some((items, at))
}

/// A copy of a list of transactions.
pub fn duplicate_transactions(items: &Vec<Transaction>) -> (copy: Vec<Transaction>)
    ensures
        transactions_view(copy@) == transactions_view(items@),
{
    let mut copy: Vec<Transaction> = Vec::new();
    let mut i: usize = 0;
    while i < items.len()
        invariant
            i <= items.len(),
            copy@.len() == i,
            transactions_view(copy@) == transactions_view(items@).take(i as int),
        decreases items.len() - i,
    {
        let item = items[i].duplicate();
        proof {
            let before = transactions_view(copy@);
            let after = transactions_view(copy@.push(item));
            let target = transactions_view(items@).take(i + 1);
            assert forall|k: int| 0 <= k < after.len() implies after[k] == target[k] by {
                if k < i {
                    assert(after[k] == before[k]);
                    assert(before[k] == transactions_view(items@).take(i as int)[k]);
                }
            }
            assert(after =~= target);
        }
        copy.push(item);
        i += 1;
    }
    proof {
        assert(transactions_view(items@).take(i as int) =~= transactions_view(items@));
    }
    copy
}

impl TXInputModel {
    /// The two parts of the reference come together: the input names a
    /// transaction exactly where it names an index.
    pub open spec fn paired(self) -> bool {
        self.tx_id is Some <==> self.v_out_idx is Some
    }

    /// The input as text for a reader.
    pub open spec fn text(self) -> Seq<char> {
        "tx_id: "@ + match self.tx_id {
            Some(id) => prefixed_hex_text(id),
            None => "None"@,
        } + "\nv_out_idx: "@ + match self.v_out_idx {
            Some(index) => decimal_chars(index as nat),
            None => "None"@,
        } + "\npublic key hash: "@ + prefixed_hex_text(self.pub_key) + " \nsignature: "@
            + match self.signature {
            Some(signature) => prefixed_hex_text(signature),
            None => "None"@,
        }
    }
}

impl TXOutputModel {
    /// The output as text for a reader.
    pub open spec fn text(self) -> Seq<char> {
        "value: "@ + decimal_chars(self.value as nat) + "\nscript_pub_key: "@ + prefixed_hex_text(
            self.pub_key_hash,
        )
    }
}

impl TransactionModel {
    /// The transaction is as the ledger makes them: its id is derived from
    /// its inputs and outputs, each input names a transaction exactly where
    /// it names an index, and every input refers to an output unless the
    /// transaction is a coinbase.
    pub open spec fn well_formed(self) -> bool {
        &&& self.id_derived()
        &&& self.inputs_refer()
        &&& forall|i: int| 0 <= i < self.v_in.len() ==> (#[trigger] self.v_in[i]).paired()
    }
}

impl TXInput {
    /// The input as text for a reader: the transaction and the index it
    /// refers to, its public key and its signature.
    pub fn to_text(&self) -> (text: String)
        ensures
            text@ == self@.text(),
    {
        let mut text = String::from_str("tx_id: ");
        match &self.tx_id {
            Some(id) => {
                text.append(hash2str(id).as_str());
            },
            None => {
                text.append("None");
            },
        }
        text.append("\nv_out_idx: ");
        match self.v_out_idx {
            Some(index) => {
                text.append(decimal_string(index as u128).as_str());
            },
            None => {
                text.append("None");
            },
        }
        text.append("\npublic key hash: ");
        text.append(bytes2hex(self.pub_key.as_slice()).as_str());
        text.append(" \nsignature: ");
        match &self.signature {
            Some(signature) => {
                text.append(bytes2hex(signature.as_slice()).as_str());
            },
            None => {
                text.append("None");
            },
        }
        proof {
            assert(text@ =~= self@.text());
        }
        text
    }
}

impl TXOutput {
    /// The output as text for a reader: its value and the key hash that locks
    /// it.
    pub fn to_text(&self) -> (text: String)
        ensures
            text@ == self@.text(),
    {
        let mut text = String::from_str("value: ");
        text.append(decimal_string(self.value as u128).as_str());
        text.append("\nscript_pub_key: ");
        text.append(bytes2hex(self.pub_key_hash.as_slice()).as_str());
        proof {
            assert(text@ =~= self@.text());
        }
        text
    }
}

} // verus!
