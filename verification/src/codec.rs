//! The byte format of the ledger's records.
//!
//! Integers are written in a variable-length form: a value up to 250 is one
//! byte; a larger one is a marker byte (251, 252, 253 or 254) followed by the
//! value in 2, 4, 8 or 16 little-endian bytes, the shortest that holds it. A
//! byte string is its length followed by its bytes. An optional value is a byte
//! 0, or a byte 1 followed by the value. A hash is its 32 bytes.
//!
//! Every format has a writer, a reader, their two specifications, and a proof
//! that the reader recovers what the writer wrote, wherever it stands in a
//! longer byte string.

use vstd::bytes::*;
use vstd::prelude::*;
use vstd::slice::*;

verus! {

/// Largest value written as a single byte.
pub const SINGLE_BYTE_MAX: u8 = 250;

/// Marker of a value written in two bytes.
pub const U16_MARK: u8 = 251;

/// Marker of a value written in four bytes.
pub const U32_MARK: u8 = 252;

/// Marker of a value written in eight bytes.
pub const U64_MARK: u8 = 253;

/// Marker of a value written in sixteen bytes.
pub const U128_MARK: u8 = 254;

/// Number of bytes in a hash.
pub const HASH_LEN: usize = 32;

/// `part` occupies `data` from position `pos` on.
pub open spec fn placed(data: Seq<u8>, pos: int, part: Seq<u8>) -> bool {
    &&& 0 <= pos
    &&& pos + part.len() <= data.len()
    &&& data.subrange(pos, pos + part.len()) == part
}

/// Where a concatenation is placed, so are its two halves, one after the other.
pub proof fn lemma_placed_split(data: Seq<u8>, pos: int, first: Seq<u8>, second: Seq<u8>)
    requires
        placed(data, pos, first + second),
    ensures
        placed(data, pos, first),
        placed(data, pos + first.len(), second),
{
    let whole = first + second;
    assert(data.subrange(pos, pos + first.len()) =~= whole.subrange(0, first.len() as int));
    assert(whole.subrange(0, first.len() as int) =~= first);
    assert(data.subrange(pos + first.len(), pos + first.len() + second.len())
        =~= whole.subrange(first.len() as int, whole.len() as int));
    assert(whole.subrange(first.len() as int, whole.len() as int) =~= second);
}

/// Every byte string is placed at the start of itself.
pub proof fn lemma_placed_whole(data: Seq<u8>)
    ensures
        placed(data, 0, data),
{
    assert(data.subrange(0, data.len() as int) =~= data);
}

/// The bytes of an optional hash.
pub open spec fn optional_hash_view(hash: Option<[u8; 32]>) -> Option<Seq<u8>> {
    match hash {
        Some(h) => Some(h@),
        None => None,
    }
}

/// The bytes of an optional byte string.
pub open spec fn optional_bytes_view(content: Option<Vec<u8>>) -> Option<Seq<u8>> {
    match content {
        Some(c) => Some(c@),
        None => None,
    }
}

/// Tells whether two byte strings hold the same bytes.
pub fn bytes_eq(left: &[u8], right: &[u8]) -> (same: bool)
    ensures
        same == (left@ == right@),
{
    if left.len() != right.len() {
        return false;
    }
    let mut i: usize = 0;
    while i < left.len()
        invariant
            i <= left.len(),
            left.len() == right.len(),
            forall|k: int| 0 <= k < i ==> left@[k] == right@[k],
        decreases left.len() - i,
    {
        if left[i] != right[i] {
            return false;
        }
        i += 1;
    }
    proof {
        assert(left@ =~= right@);
    }
    true
}

/// Appends `src` to `out`.
pub fn append_bytes(out: &mut Vec<u8>, src: &[u8])
    ensures
        final(out)@ == old(out)@ + src@,
{
    let mut i: usize = 0;
    while i < src.len()
        invariant
            i <= src.len(),
            out@ == old(out)@ + src@.take(i as int),
        decreases src.len() - i,
    {
        out.push(src[i]);
        proof {
            assert(src@.take(i + 1) =~= src@.take(i as int).push(src@[i as int]));
            assert(out@ =~= old(out)@ + src@.take(i + 1));
        }
        i += 1;
    }
    proof {
        assert(src@.take(i as int) =~= src@);
    }
}

/// The variable-length form of `n`.
pub open spec fn varint_bytes(n: nat) -> Seq<u8> {
    if n <= SINGLE_BYTE_MAX {
        seq![n as u8]
    } else if n <= u16::MAX {
        seq![U16_MARK] + spec_u16_to_le_bytes(n as u16)
    } else if n <= u32::MAX {
        seq![U32_MARK] + spec_u32_to_le_bytes(n as u32)
    } else if n <= u64::MAX {
        seq![U64_MARK] + spec_u64_to_le_bytes(n as u64)
    } else {
        seq![U128_MARK] + spec_u128_to_le_bytes(n as u128)
    }
}

/// Reads a variable-length integer of up to 128 bits at `pos`: the value and
/// the position after it, or `None` where the bytes end early or the marker is
/// not one of the four. A value in a longer form than it needs is accepted.
pub open spec fn parse_varint_u128(data: Seq<u8>, pos: int) -> Option<(u128, int)> {
    if pos < 0 || pos >= data.len() {
        None
    } else if data[pos] <= SINGLE_BYTE_MAX {
        Some((data[pos] as u128, pos + 1))
    } else if data[pos] == U16_MARK {
        if pos + 3 <= data.len() {
            Some((spec_u16_from_le_bytes(data.subrange(pos + 1, pos + 3)) as u128, pos + 3))
        } else {
            None
        }
    } else if data[pos] == U32_MARK {
        if pos + 5 <= data.len() {
            Some((spec_u32_from_le_bytes(data.subrange(pos + 1, pos + 5)) as u128, pos + 5))
        } else {
            None
        }
    } else if data[pos] == U64_MARK {
        if pos + 9 <= data.len() {
            Some((spec_u64_from_le_bytes(data.subrange(pos + 1, pos + 9)) as u128, pos + 9))
        } else {
            None
        }
    } else if data[pos] == U128_MARK {
        if pos + 17 <= data.len() {
            Some((spec_u128_from_le_bytes(data.subrange(pos + 1, pos + 17)), pos + 17))
        } else {
            None
        }
    } else {
        None
    }
}

/// Reads a variable-length integer of up to 64 bits at `pos`: as
/// [`parse_varint_u128`], but the sixteen-byte form is refused.
pub open spec fn parse_varint_u64(data: Seq<u8>, pos: int) -> Option<(u64, int)> {
    match parse_varint_u128(data, pos) {
        Some((value, next)) => if 0 <= pos < data.len() && data[pos] != U128_MARK {
            Some((value as u64, next))
        } else {
            None
        },
        None => None,
    }
}

/// Reading recovers a written integer of up to 128 bits.
pub proof fn lemma_parse_varint_u128(data: Seq<u8>, pos: int, value: u128)
    requires
        placed(data, pos, varint_bytes(value as nat)),
    ensures
        parse_varint_u128(data, pos) == Some(
            (value, pos + varint_bytes(value as nat).len()),
        ),
{
    lemma_auto_spec_u16_to_from_le_bytes();
    lemma_auto_spec_u32_to_from_le_bytes();
    lemma_auto_spec_u64_to_from_le_bytes();
    lemma_auto_spec_u128_to_from_le_bytes();
    let written = varint_bytes(value as nat);
    assert(data[pos] == data.subrange(pos, pos + written.len())[0]);
    if value <= SINGLE_BYTE_MAX {
    } else {
        let mark = seq![written[0]];
        let tail = written.subrange(1, written.len() as int);
        assert(written =~= mark + tail);
        lemma_placed_split(data, pos, mark, tail);
        if value <= u16::MAX {
            assert(tail =~= spec_u16_to_le_bytes(value as u16));
        } else if value <= u32::MAX {
            assert(tail =~= spec_u32_to_le_bytes(value as u32));
        } else if value <= u64::MAX {
            assert(tail =~= spec_u64_to_le_bytes(value as u64));
        } else {
            assert(tail =~= spec_u128_to_le_bytes(value));
        }
    }
}

/// Reading recovers a written integer of up to 64 bits.
pub proof fn lemma_parse_varint_u64(data: Seq<u8>, pos: int, value: u64)
    requires
        placed(data, pos, varint_bytes(value as nat)),
    ensures
        parse_varint_u64(data, pos) == Some((value, pos + varint_bytes(value as nat).len())),
{
    lemma_parse_varint_u128(data, pos, value as u128);
    let written = varint_bytes(value as nat);
    assert(data[pos] == data.subrange(pos, pos + written.len())[0]);
}

/// Appends the variable-length form of `value`.
pub fn write_varint(out: &mut Vec<u8>, value: u128)
    ensures
        final(out)@ == old(out)@ + varint_bytes(value as nat),
{
    if value <= 250 {
        out.push(value as u8);
        proof {
            assert(out@ =~= old(out)@ + varint_bytes(value as nat));
        }
    } else if value <= 0xffff {
        out.push(U16_MARK);
        let tail = u16_to_le_bytes(value as u16);
        append_bytes(out, tail.as_slice());
        proof {
            assert(out@ =~= old(out)@ + varint_bytes(value as nat));
        }
    } else if value <= 0xffff_ffff {
        out.push(U32_MARK);
        let tail = u32_to_le_bytes(value as u32);
        append_bytes(out, tail.as_slice());
        proof {
            assert(out@ =~= old(out)@ + varint_bytes(value as nat));
        }
    } else if value <= 0xffff_ffff_ffff_ffff {
        out.push(U64_MARK);
        let tail = u64_to_le_bytes(value as u64);
        append_bytes(out, tail.as_slice());
        proof {
            assert(out@ =~= old(out)@ + varint_bytes(value as nat));
        }
    } else {
        out.push(U128_MARK);
        let tail = u128_to_le_bytes(value);
        append_bytes(out, tail.as_slice());
        proof {
            assert(out@ =~= old(out)@ + varint_bytes(value as nat));
        }
    }
}

/// Reads a variable-length integer of up to 128 bits at `pos`.
pub fn read_varint_u128(data: &[u8], pos: usize) -> (found: Option<(u128, usize)>)
    ensures
        found matches Some((value, next)) ==> parse_varint_u128(data@, pos as int) == Some(
            (value, next as int),
        ) && pos < next <= data@.len(),
        found is None ==> parse_varint_u128(data@, pos as int) is None,
{
    if pos >= data.len() {
        return None;
    }
    let mark: u8 = data[pos];
    let room: usize = data.len() - pos;
    if mark <= SINGLE_BYTE_MAX {
        Some((mark as u128, pos + 1))
    } else if mark == U16_MARK {
        if room < 3 {
            return None;
        }
        let value = u16_from_le_bytes(slice_subrange(data, pos + 1, pos + 3));
        Some((value as u128, pos + 3))
    } else if mark == U32_MARK {
        if room < 5 {
            return None;
        }
        let value = u32_from_le_bytes(slice_subrange(data, pos + 1, pos + 5));
        Some((value as u128, pos + 5))
    } else if mark == U64_MARK {
        if room < 9 {
            return None;
        }
        let value = u64_from_le_bytes(slice_subrange(data, pos + 1, pos + 9));
        Some((value as u128, pos + 9))
    } else if mark == U128_MARK {
        if room < 17 {
            return None;
        }
        let value = u128_from_le_bytes(slice_subrange(data, pos + 1, pos + 17));
        Some((value, pos + 17))
    } else {
        None
    }
}

/// Reads a variable-length integer of up to 64 bits at `pos`.
pub fn read_varint_u64(data: &[u8], pos: usize) -> (found: Option<(u64, usize)>)
    ensures
        found matches Some((value, next)) ==> parse_varint_u64(data@, pos as int) == Some(
            (value, next as int),
        ) && pos < next <= data@.len(),
        found is None ==> parse_varint_u64(data@, pos as int) is None,
{
    if pos >= data.len() || data[pos] == U128_MARK {
        return None;
    }
    match read_varint_u128(data, pos) {
        Some((value, next)) => Some((value as u64, next)),
        None => None,
    }
}

/// A byte string in the format: its length, then its bytes.
pub open spec fn bytes_field(content: Seq<u8>) -> Seq<u8> {
    varint_bytes(content.len()) + content
}

/// Reads a byte string at `pos`.
pub open spec fn parse_bytes_field(data: Seq<u8>, pos: int) -> Option<(Seq<u8>, int)> {
    match parse_varint_u64(data, pos) {
        Some((len, start)) => if start + len <= data.len() {
            Some((data.subrange(start, start + len), start + len))
        } else {
            None
        },
        None => None,
    }
}

/// Reading recovers a written byte string.
pub proof fn lemma_parse_bytes_field(data: Seq<u8>, pos: int, content: Seq<u8>)
    requires
        content.len() <= u64::MAX,
        placed(data, pos, bytes_field(content)),
    ensures
        parse_bytes_field(data, pos) == Some((content, pos + bytes_field(content).len())),
{
    lemma_placed_split(data, pos, varint_bytes(content.len()), content);
    lemma_parse_varint_u64(data, pos, content.len() as u64);
}

/// Appends a byte string in the format.
pub fn write_bytes_field(out: &mut Vec<u8>, content: &[u8])
    ensures
        final(out)@ == old(out)@ + bytes_field(content@),
{
    write_varint(out, content.len() as u128);
    append_bytes(out, content);
    proof {
        assert(out@ =~= old(out)@ + bytes_field(content@));
    }
}

/// Reads a byte string at `pos`.
pub fn read_bytes_field(data: &[u8], pos: usize) -> (found: Option<(Vec<u8>, usize)>)
    ensures
        found matches Some((content, next)) ==> parse_bytes_field(data@, pos as int) == Some(
            (content@, next as int),
        ) && pos < next <= data@.len(),
        found is None ==> parse_bytes_field(data@, pos as int) is None,
{
    match read_varint_u64(data, pos) {
        Some((len, start)) => {
            if len > (data.len() - start) as u64 {
                return None;
            }
            let end: usize = start + len as usize;
            Some((slice_to_vec(slice_subrange(data, start, end)), end))
        },
        None => None,
    }
}

/// Reads the 32 bytes of a hash at `pos`.
pub open spec fn parse_hash(data: Seq<u8>, pos: int) -> Option<(Seq<u8>, int)> {
    if 0 <= pos && pos + HASH_LEN <= data.len() {
        Some((data.subrange(pos, pos + HASH_LEN), pos + HASH_LEN))
    } else {
        None
    }
}

/// Reading recovers a written hash.
pub proof fn lemma_parse_hash(data: Seq<u8>, pos: int, hash: Seq<u8>)
    requires
        hash.len() == HASH_LEN,
        placed(data, pos, hash),
    ensures
        parse_hash(data, pos) == Some((hash, pos + HASH_LEN)),
{
}

/// Reads the 32 bytes of a hash at `pos`.
pub fn read_hash(data: &[u8], pos: usize) -> (found: Option<([u8; 32], usize)>)
    ensures
        found matches Some((hash, next)) ==> parse_hash(data@, pos as int) == Some(
            (hash@, next as int),
        ) && pos < next <= data@.len(),
        found is None ==> parse_hash(data@, pos as int) is None,
{
    if pos > data.len() || data.len() - pos < HASH_LEN {
        return None;
    }
    let mut hash: [u8; 32] = [0u8; 32];
    let mut i: usize = 0;
    while i < HASH_LEN
        invariant
            i <= HASH_LEN,
            pos + HASH_LEN <= data.len(),
            forall|k: int| 0 <= k < i ==> hash@[k] == data@[pos + k],
        decreases HASH_LEN - i,
    {
        hash[i] = data[pos + i];
        i += 1;
    }
    proof {
        assert(hash@ =~= data@.subrange(pos as int, pos + HASH_LEN));
    }
    Some((hash, pos + HASH_LEN))
}

/// An optional hash in the format.
pub open spec fn optional_hash_bytes(hash: Option<Seq<u8>>) -> Seq<u8> {
    match hash {
        Some(h) => seq![1u8] + h,
        None => seq![0u8],
    }
}

/// Reads an optional hash at `pos`.
pub open spec fn parse_optional_hash(data: Seq<u8>, pos: int) -> Option<(Option<Seq<u8>>, int)> {
    if pos < 0 || pos >= data.len() {
        None
    } else if data[pos] == 0 {
        Some((None, pos + 1))
    } else if data[pos] == 1 {
        match parse_hash(data, pos + 1) {
            Some((hash, next)) => Some((Some(hash), next)),
            None => None,
        }
    } else {
        None
    }
}

/// Reading recovers a written optional hash.
pub proof fn lemma_parse_optional_hash(data: Seq<u8>, pos: int, hash: Option<Seq<u8>>)
    requires
        hash matches Some(h) ==> h.len() == HASH_LEN,
        placed(data, pos, optional_hash_bytes(hash)),
    ensures
        parse_optional_hash(data, pos) == Some(
            (hash, pos + optional_hash_bytes(hash).len()),
        ),
{
    let written = optional_hash_bytes(hash);
    assert(data[pos] == data.subrange(pos, pos + written.len())[0]);
    match hash {
        Some(h) => {
            lemma_placed_split(data, pos, seq![1u8], h);
        },
        None => {},
    }
}

/// Appends an optional hash in the format.
pub fn write_optional_hash(out: &mut Vec<u8>, hash: &Option<[u8; 32]>)
    ensures
        final(out)@ == old(out)@ + optional_hash_bytes(optional_hash_view(*hash)),
{
    match hash {
        Some(h) => {
            out.push(1);
            append_bytes(out, h.as_slice());
            proof {
                assert(out@ =~= old(out)@ + (seq![1u8] + h@));
            }
        },
        None => {
            out.push(0);
            proof {
                assert(out@ =~= old(out)@ + seq![0u8]);
            }
        },
    }
}

/// Reads an optional hash at `pos`.
pub fn read_optional_hash(data: &[u8], pos: usize) -> (found: Option<(Option<[u8; 32]>, usize)>)
    ensures
        found matches Some((hash, next)) ==> parse_optional_hash(data@, pos as int) == Some(
            (optional_hash_view(hash), next as int),
        ) && pos < next <= data@.len(),
        found is None ==> parse_optional_hash(data@, pos as int) is None,
{
    if pos >= data.len() {
        return None;
    }
    let tag: u8 = data[pos];
    if tag == 0 {
        Some((None, pos + 1))
    } else if tag == 1 {
        match read_hash(data, pos + 1) {
            Some((hash, next)) => Some((Some(hash), next)),
            None => None,
        }
    } else {
        None
    }
}

/// An optional index in the format.
pub open spec fn optional_index_bytes(index: Option<usize>) -> Seq<u8> {
    match index {
        Some(i) => seq![1u8] + varint_bytes(i as nat),
        None => seq![0u8],
    }
}

/// Reads an optional index at `pos`; one that does not fit the machine's word
/// is refused.
pub open spec fn parse_optional_index(data: Seq<u8>, pos: int) -> Option<(Option<usize>, int)> {
    if pos < 0 || pos >= data.len() {
        None
    } else if data[pos] == 0 {
        Some((None, pos + 1))
    } else if data[pos] == 1 {
        match parse_varint_u64(data, pos + 1) {
            Some((value, next)) => if value <= usize::MAX {
                Some((Some(value as usize), next))
            } else {
                None
            },
            None => None,
        }
    } else {
        None
    }
}

/// Reading recovers a written optional index.
pub proof fn lemma_parse_optional_index(data: Seq<u8>, pos: int, index: Option<usize>)
    requires
        placed(data, pos, optional_index_bytes(index)),
    ensures
        parse_optional_index(data, pos) == Some(
            (index, pos + optional_index_bytes(index).len()),
        ),
{
    let written = optional_index_bytes(index);
    assert(data[pos] == data.subrange(pos, pos + written.len())[0]);
    match index {
        Some(i) => {
            lemma_placed_split(data, pos, seq![1u8], varint_bytes(i as nat));
            lemma_parse_varint_u64(data, pos + 1, i as u64);
        },
        None => {},
    }
}

/// Appends an optional index in the format.
pub fn write_optional_index(out: &mut Vec<u8>, index: &Option<usize>)
    ensures
        final(out)@ == old(out)@ + optional_index_bytes(*index),
{
    match index {
        Some(i) => {
            out.push(1);
            write_varint(out, *i as u128);
            proof {
                assert(out@ =~= old(out)@ + (seq![1u8] + varint_bytes(*i as nat)));
            }
        },
        None => {
            out.push(0);
            proof {
                assert(out@ =~= old(out)@ + seq![0u8]);
            }
        },
    }
}

/// Reads an optional index at `pos`.
pub fn read_optional_index(data: &[u8], pos: usize) -> (found: Option<(Option<usize>, usize)>)
    ensures
        found matches Some((index, next)) ==> parse_optional_index(data@, pos as int) == Some(
            (index, next as int),
        ) && pos < next <= data@.len(),
        found is None ==> parse_optional_index(data@, pos as int) is None,
{
    if pos >= data.len() {
        return None;
    }
    let tag: u8 = data[pos];
    if tag == 0 {
        Some((None, pos + 1))
    } else if tag == 1 {
        match read_varint_u64(data, pos + 1) {
            Some((value, next)) => {
                if value > usize::MAX as u64 {
                    None
                } else {
                    Some((Some(value as usize), next))
                }
            },
            None => None,
        }
    } else {
        None
    }
}

/// An optional byte string in the format.
pub open spec fn optional_bytes_field(content: Option<Seq<u8>>) -> Seq<u8> {
    match content {
        Some(c) => seq![1u8] + bytes_field(c),
        None => seq![0u8],
    }
}

/// Reads an optional byte string at `pos`.
pub open spec fn parse_optional_bytes_field(data: Seq<u8>, pos: int) -> Option<
    (Option<Seq<u8>>, int),
> {
    if pos < 0 || pos >= data.len() {
        None
    } else if data[pos] == 0 {
        Some((None, pos + 1))
    } else if data[pos] == 1 {
        match parse_bytes_field(data, pos + 1) {
            Some((content, next)) => Some((Some(content), next)),
            None => None,
        }
    } else {
        None
    }
}

/// Reading recovers a written optional byte string.
pub proof fn lemma_parse_optional_bytes_field(data: Seq<u8>, pos: int, content: Option<Seq<u8>>)
    requires
        content matches Some(c) ==> c.len() <= u64::MAX,
        placed(data, pos, optional_bytes_field(content)),
    ensures
        parse_optional_bytes_field(data, pos) == Some(
            (content, pos + optional_bytes_field(content).len()),
        ),
{
    let written = optional_bytes_field(content);
    assert(data[pos] == data.subrange(pos, pos + written.len())[0]);
    match content {
        Some(c) => {
            lemma_placed_split(data, pos, seq![1u8], bytes_field(c));
            lemma_parse_bytes_field(data, pos + 1, c);
        },
        None => {},
    }
}

/// Appends an optional byte string in the format.
pub fn write_optional_bytes_field(out: &mut Vec<u8>, content: &Option<Vec<u8>>)
    ensures
        final(out)@ == old(out)@ + optional_bytes_field(optional_bytes_view(*content)),
{
    match content {
        Some(c) => {
            out.push(1);
            write_bytes_field(out, c.as_slice());
            proof {
                assert(out@ =~= old(out)@ + (seq![1u8] + bytes_field(c@)));
            }
        },
        None => {
            out.push(0);
            proof {
                assert(out@ =~= old(out)@ + seq![0u8]);
            }
        },
    }
}

/// Reads an optional byte string at `pos`.
pub fn read_optional_bytes_field(data: &[u8], pos: usize) -> (found: Option<
    (Option<Vec<u8>>, usize),
>)
    ensures
        found matches Some((content, next)) ==> parse_optional_bytes_field(data@, pos as int)
            == Some(
            (optional_bytes_view(content), next as int),
        ) && pos < next <= data@.len(),
        found is None ==> parse_optional_bytes_field(data@, pos as int) is None,
{
    if pos >= data.len() {
        return None;
    }
    let tag: u8 = data[pos];
    if tag == 0 {
        Some((None, pos + 1))
    } else if tag == 1 {
        match read_bytes_field(data, pos + 1) {
            Some((content, next)) => Some((Some(content), next)),
            None => None,
        }
    } else {
        None
    }
}

} // verus!
