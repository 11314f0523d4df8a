//! The payload that is coded, and its bytes.
//!
//! The payload is the data of a parachain block together with its extrinsic. It is
//! turned into bytes and back by `parity_codec`: a byte vector is written as its length
//! in the compact form, followed by its bytes; the extrinsic holds nothing and is
//! written as no bytes at all.

use parity_codec::{Decode, Encode};
use vstd::prelude::*;

verus! {

/// Parachain block data: the bytes of a block of a parachain.
#[derive(Debug, Clone, PartialEq, Eq)]
pub struct BlockData(pub Vec<u8>);

/// Extrinsic data of a parachain block. It holds nothing.
#[derive(Debug, Clone, Copy, PartialEq, Eq)]
pub struct Extrinsic;

/// The two lowest bytes of `v`, lowest first.
pub open spec fn le_bytes2(v: int) -> Seq<u8> {
    seq![(v % 256) as u8, (v / 256 % 256) as u8]
}

/// The four lowest bytes of `v`, lowest first.
pub open spec fn le_bytes4(v: int) -> Seq<u8> {
    seq![
        (v % 256) as u8,
        (v / 256 % 256) as u8,
        (v / 256 / 256 % 256) as u8,
        (v / 256 / 256 / 256 % 256) as u8,
    ]
}

/// The number that four bytes hold, lowest first.
pub open spec fn le_value4(b0: u8, b1: u8, b2: u8, b3: u8) -> int {
    b0 + 256 * b1 + 65536 * b2 + 16777216 * b3
}

/// A length in the compact form. The two lowest bits of the first byte say how many
/// bytes there are: one byte for a length under 2^6, two under 2^14, four under 2^30,
/// each holding the length times four plus those bits; else a byte 3 and then the
/// length in four bytes.
pub open spec fn compact_len(n: int) -> Seq<u8> {
    if n < 64 {
        seq![(4 * n) as u8]
    } else if n < 16384 {
        le_bytes2(4 * n + 1)
    } else if n < 1073741824 {
        le_bytes4(4 * n + 2)
    } else {
        seq![3u8] + le_bytes4(n)
    }
}

/// The bytes of a byte vector: its length in the compact form, and then its bytes.
pub open spec fn scale_bytes(block: Seq<u8>) -> Seq<u8> {
    compact_len(block.len() as int) + block
}

/// The length in the compact form at the start of `bytes`, with the number of bytes
/// that it takes; nothing, where `bytes` ends too early or the first byte is none that
/// a length of 32 bits can start with.
pub open spec fn compact_decoded(bytes: Seq<u8>) -> Option<(int, int)> {
    if bytes.len() == 0 {
        None
    } else if bytes[0] % 4 == 0 {
        Some((bytes[0] as int / 4, 1))
    } else if bytes[0] % 4 == 1 {
        if bytes.len() < 2 {
            None
        } else {
            Some(((bytes[0] + 256 * bytes[1]) / 4, 2))
        }
    } else if bytes[0] % 4 == 2 {
        if bytes.len() < 4 {
            None
        } else {
            Some((le_value4(bytes[0], bytes[1], bytes[2], bytes[3]) / 4, 4))
        }
    } else {
        if bytes[0] != 3 || bytes.len() < 5 {
            None
        } else {
            Some((le_value4(bytes[1], bytes[2], bytes[3], bytes[4]), 5))
        }
    }
}

/// The byte vector that `bytes` starts with; nothing, where there is no length at the
/// start or fewer bytes follow it than it says. Bytes after the vector are passed
/// over.
pub open spec fn scale_decoded(bytes: Seq<u8>) -> Option<Seq<u8>> {
    match compact_decoded(bytes) {
        None => None,
        Some((n, width)) => if bytes.len() - width < n {
            None
        } else {
            Some(bytes.subrange(width, width + n))
        },
    }
}

/// Four bytes hold a number under 2^32 whole, and the lowest of them holds its two
/// lowest bits.
pub proof fn lemma_le_bytes4(v: int)
    requires
        0 <= v < 4294967296,
    ensures
        le_value4(le_bytes4(v)[0], le_bytes4(v)[1], le_bytes4(v)[2], le_bytes4(v)[3]) == v,
        le_bytes4(v)[0] % 4 == v % 4,
{
    let q1 = v / 256;
    let q2 = q1 / 256;
    let q3 = q2 / 256;
    assert(v == 256 * q1 + v % 256);
    assert(q1 == 256 * q2 + q1 % 256);
    assert(q2 == 256 * q3 + q2 % 256);
    assert(q3 < 256);
    assert(q3 % 256 == q3);
    assert((v % 256) % 4 == v % 4);
}

/// A length under 2^32 in the compact form is read back as it was, with the number
/// of bytes that it took, whatever follows it.
pub proof fn lemma_compact_decoded(n: int, rest: Seq<u8>)
    requires
        0 <= n <= u32::MAX,
    ensures
        compact_decoded(compact_len(n) + rest) == Some((n, compact_len(n).len() as int)),
{
    let prefix = compact_len(n);
    let bytes = prefix + rest;
    assert forall|i: int| 0 <= i < prefix.len() implies bytes[i] == prefix[i] by {}
    if n < 64 {
        assert(prefix[0] == 4 * n);
        assert((4 * n) % 4 == 0 && (4 * n) / 4 == n);
    } else if n < 16384 {
        let v = 4 * n + 1;
        assert(v / 256 < 256);
        assert(v / 256 % 256 == v / 256);
        assert(v == 256 * (v / 256) + v % 256);
        assert((v % 256) % 4 == 1);
        assert(prefix[0] == v % 256 && prefix[1] == v / 256);
        assert(bytes[0] == v % 256 && bytes[1] == v / 256);
        assert(v / 4 == n);
    } else if n < 1073741824 {
        let v = 4 * n + 2;
        lemma_le_bytes4(v);
        assert(v % 4 == 2 && v / 4 == n);
        assert(bytes[0] == prefix[0] && bytes[1] == prefix[1] && bytes[2] == prefix[2] && bytes[3]
            == prefix[3]);
    } else {
        lemma_le_bytes4(n);
        assert(prefix[0] == 3u8);
        assert(bytes[0] == 3u8);
        assert(bytes[1] == le_bytes4(n)[0] && bytes[2] == le_bytes4(n)[1] && bytes[3]
            == le_bytes4(n)[2] && bytes[4] == le_bytes4(n)[3]) by {
            assert(bytes[1] == prefix[1] && bytes[2] == prefix[2] && bytes[3] == prefix[3]
                && bytes[4] == prefix[4]);
        }
    }
}

/// A byte vector that was turned into bytes is read back from them as it was,
/// whatever follows the bytes.
pub proof fn lemma_decode_encoded(block: Seq<u8>, tail: Seq<u8>)
    requires
        block.len() <= u32::MAX,
    ensures
        scale_decoded(scale_bytes(block) + tail) == Some(block),
{
    let n = block.len() as int;
    let prefix = compact_len(n);
    let bytes = scale_bytes(block) + tail;
    let width = prefix.len() as int;
    lemma_compact_decoded(n, block + tail);
    assert(bytes =~= prefix + (block + tail));
    assert(bytes.subrange(width, width + n) =~= block);
}

/// The bytes of a payload hold at least the length, so they are never empty.
pub proof fn lemma_encoded_not_empty(block: Seq<u8>)
    ensures
        scale_bytes(block).len() > 0,
{
}

/// `Encode::encode` of `parity_codec`, on the pair of the block data's byte vector and
/// the unit value, which stands for the extrinsic.
///
/// A pair is written as its first part and then its second; the unit value as nothing;
/// the byte vector as its length in the compact form and then its bytes. The call
/// panics on a vector of more than `u32::MAX` bytes.
#[verifier::external_body]
pub(crate) fn encode_payload(block_data: &BlockData, extrinsic: &Extrinsic) -> (encoded: Vec<u8>)
    requires
        block_data.0@.len() <= u32::MAX,
    ensures
        encoded@ == scale_bytes(block_data.0@),
{
    let Extrinsic = extrinsic;
    (&block_data.0, ()).encode()
}

/// `Decode::decode` of `parity_codec`, for a pair of a byte vector and the unit value,
/// on `bytes` as the input.
///
/// The call reads a length in the compact form, then as many bytes as the length
/// says, and nothing for the unit value; it gives nothing where the input ends before
/// that, or where the first byte starts no length of 32 bits. What is left of the input
/// is not looked at.
#[verifier::external_body]
pub(crate) fn decode_payload(bytes: &[u8]) -> (r: Option<(BlockData, Extrinsic)>)
    ensures
        r is Some <==> scale_decoded(bytes@) is Some,
        r is Some ==> r.unwrap().0.0@ == scale_decoded(bytes@).unwrap(),
{
    let pair: Option<(Vec<u8>, ())> = Decode::decode(&mut &bytes[..]);
    pair.map(|(block, ())| (BlockData(block), Extrinsic))
}

} // verus!
