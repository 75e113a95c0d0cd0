//! The stored form of posting lists and chunk statistics.
//!
//! A posting list is a flat run of big-endian 16-bit document ids in strictly
//! ascending order, with no length prefix. The document count of a chunk is a
//! big-endian 64-bit integer.

use vstd::prelude::*;
use byteorder::BigEndian;
use byteorder::ByteOrder;
use crate::merge::lemma_adjacent_ascending;
use crate::merge::strictly_ascending;

verus! {

/// Why a stored value could not be used.
#[derive(Debug, Clone, Copy, PartialEq, Eq)]
pub enum StorageError {
    /// The storage layer failed to answer a lookup.
    ReadFailed,
    /// A stored value does not have the form its key calls for.
    Corrupt,
}

/// The 16-bit number whose big-endian bytes are `hi`, `lo`.
pub open spec fn be16(hi: u8, lo: u8) -> u16 {
    (hi as int * 256 + lo as int) as u16
}

/// The number whose big-endian digits, base 256, are `bytes`.
pub open spec fn be_value(bytes: Seq<u8>) -> int
    decreases bytes.len(),
{
    if bytes.len() == 0 {
        0
    } else {
        be_value(bytes.drop_last()) * 256 + bytes.last() as int
    }
}

/// The ids that a byte string of even length encodes, in stored order.
pub open spec fn decoded(bytes: Seq<u8>) -> Seq<u16> {
    Seq::new(bytes.len() / 2, |k: int| be16(bytes[2 * k], bytes[2 * k + 1]))
}

/// A well-formed stored posting list: whole ids, strictly ascending.
pub open spec fn valid_postings(bytes: Seq<u8>) -> bool {
    bytes.len() % 2 == 0 && strictly_ascending(decoded(bytes))
}

/// The ids of a corpus of `num_docs` documents: `0, 1, ..` up to the count,
/// as far as 16-bit ids reach. A count below one leaves none.
pub open spec fn all_ids(num_docs: i64) -> Seq<u16> {
    Seq::new(
        if num_docs <= 0 {
            0nat
        } else if num_docs >= 65536 {
            65536nat
        } else {
            num_docs as nat
        },
        |k: int| k as u16,
    )
}

/// The document count that the first eight bytes of a stored statistic give.
pub open spec fn stored_total(bytes: Seq<u8>) -> i64 {
    be_value(bytes.subrange(0, 8)) as i64
}

/// Calls `byteorder::BigEndian::read_u16` on a two-byte buffer: the result is
/// the first byte times 256 plus the second.
#[verifier::external_body]
fn read_u16_be(buf: &[u8; 2]) -> (n: u16)
    ensures
        n == be16(buf@[0], buf@[1]),
{
    BigEndian::read_u16(buf)
}

/// Calls `byteorder::BigEndian::write_u16` on a fresh two-byte buffer: the
/// buffer then holds the high byte of `n`, then its low byte.
#[verifier::external_body]
fn write_u16_be(n: u16) -> (buf: [u8; 2])
    ensures
        buf@[0] as int == n as int / 256,
        buf@[1] as int == n as int % 256,
{
    let mut buf = [0u8; 2];
    BigEndian::write_u16(&mut buf, n);
    buf
}

/// Calls `byteorder::BigEndian::read_i64` on an eight-byte buffer: the result
/// is the unsigned big-endian value of the bytes, read as a signed 64-bit
/// integer of the same bits.
#[verifier::external_body]
fn read_i64_be(buf: &[u8; 8]) -> (n: i64)
    ensures
        n == be_value(buf@) as i64,
{
    BigEndian::read_i64(buf)
}

/// Decodes a stored posting list, refusing one with a trailing half id or
/// with ids that do not strictly ascend.
pub fn decode_postings(bytes: &Vec<u8>) -> (r: Result<Vec<u16>, StorageError>)
    ensures
        r.is_ok() == valid_postings(bytes@),
        r.is_ok() ==> r.unwrap()@ == decoded(bytes@),
        r.is_err() ==> r.unwrap_err() == StorageError::Corrupt,
{
    if bytes.len() % 2 != 0 {
        return Err(StorageError::Corrupt);
    }
    let count: usize = bytes.len() / 2;
    let mut ids: Vec<u16> = Vec::new();
    let mut k: usize = 0;
    while k < count
        invariant
            k <= count,
            count == bytes.len() / 2,
            bytes.len() % 2 == 0,
            ids@ == decoded(bytes@).take(k as int),
            forall|m: int| 0 <= m && m + 1 < k ==> #[trigger] ids[m] < ids[m + 1],
        decreases count - k,
    {
        let buf: [u8; 2] = [bytes[2 * k], bytes[2 * k + 1]];
        let doc: u16 = read_u16_be(&buf);
        assert(doc == decoded(bytes@)[k as int]);
        if k > 0 && ids[k - 1] >= doc {
            assert(!strictly_ascending(decoded(bytes@))) by {
                if strictly_ascending(decoded(bytes@)) {
                    assert(decoded(bytes@)[k - 1] < decoded(bytes@)[k as int]);
                }
            }
            return Err(StorageError::Corrupt);
        }
        ids.push(doc);
        k += 1;
        assert(ids@ =~= decoded(bytes@).take(k as int));
    }
    proof {
        assert(ids@ =~= decoded(bytes@));
        lemma_adjacent_ascending(ids@);
    }
    Ok(ids)
}

/// Encodes ids in the stored form, two bytes each.
pub fn encode_postings(ids: &Vec<u16>) -> (bytes: Vec<u8>)
    ensures
        bytes@.len() == 2 * ids@.len(),
        decoded(bytes@) == ids@,
        forall|k: int| 0 <= k < ids@.len() ==> bytes@[2 * k] as int == #[trigger] ids@[k] as int / 256,
        forall|k: int| 0 <= k < ids@.len() ==> bytes@[2 * k + 1] as int == #[trigger] ids@[k] as int % 256,
{
    let mut bytes: Vec<u8> = Vec::new();
    let mut k: usize = 0;
    while k < ids.len()
        invariant
            k <= ids.len(),
            bytes@.len() == 2 * k,
            forall|m: int| 0 <= m < k ==> bytes@[2 * m] as int == #[trigger] ids@[m] as int / 256,
            forall|m: int| 0 <= m < k ==> bytes@[2 * m + 1] as int == #[trigger] ids@[m] as int % 256,
        decreases ids.len() - k,
    {
        let buf: [u8; 2] = write_u16_be(ids[k]);
        bytes.push(buf[0]);
        bytes.push(buf[1]);
        k += 1;
    }
    proof {
        assert forall|m: int| 0 <= m < ids@.len() implies decoded(bytes@)[m] == ids@[m] by {
            let v = ids@[m];
            assert(bytes@[2 * m] as int == v as int / 256);
            assert(bytes@[2 * m + 1] as int == v as int % 256);
        }
        assert(decoded(bytes@) =~= ids@);
    }
    bytes
}

/// The id list of a corpus of `num_docs` documents: `0, 1, ..` up to the
/// last, as far as 16-bit ids reach.
pub fn new_filled(num_docs: i64) -> (ids: Vec<u16>)
    ensures
        ids@ == all_ids(num_docs),
        strictly_ascending(ids@),
        ids@.to_set() == Set::new(|d: u16| (d as int) < num_docs),
{
    let mut ids: Vec<u16> = Vec::new();
    let mut doc_id: u32 = 0;
    while doc_id < 65536 && (doc_id as i64) < num_docs
        invariant
            doc_id <= 65536,
            doc_id == 0 || doc_id <= num_docs,
            ids@ == Seq::new(doc_id as nat, |k: int| k as u16),
        decreases 65536 - doc_id,
    {
        ids.push(doc_id as u16);
        doc_id += 1;
        assert(ids@ =~= Seq::new(doc_id as nat, |k: int| k as u16));
    }
    proof {
        assert(ids@ =~= all_ids(num_docs));
        assert forall|d: u16| ids@.to_set().contains(d) == ((d as int) < num_docs) by {
            if (d as int) < num_docs {
                assert(ids@[d as int] == d);
            }
        }
        assert(ids@.to_set() =~= Set::new(|d: u16| (d as int) < num_docs));
    }
    ids
}

/// Reads the document count of a chunk from its stored statistic. A value of
/// fewer than eight bytes is refused; of a longer one the first eight count.
pub fn decode_total_docs(bytes: &Vec<u8>) -> (r: Result<i64, StorageError>)
    ensures
        r.is_ok() == (bytes@.len() >= 8),
        r.is_ok() ==> r.unwrap() == stored_total(bytes@),
        r.is_err() ==> r.unwrap_err() == StorageError::Corrupt,
{
    if bytes.len() < 8 {
        return Err(StorageError::Corrupt);
    }
    let buf: [u8; 8] = [
        bytes[0],
        bytes[1],
        bytes[2],
        bytes[3],
        bytes[4],
        bytes[5],
        bytes[6],
        bytes[7],
    ];
    assert(buf@ =~= bytes@.subrange(0, 8));
    Ok(read_i64_be(&buf))
}

} // verus!
